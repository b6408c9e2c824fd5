//! The zoom level of the view, which never falls below its floor.
//!
//! Levels are handed in and out as integer codes that are ordered like the
//! levels they stand for. The codes up to `MAX_LEVEL` stand for the levels
//! from zero upwards; a code beyond `MAX_LEVEL` stands for no level.

use vstd::prelude::*;

verus! {

/// The code of the largest level.
pub const MAX_LEVEL: u64 = 0x7ff0_0000_0000_0000;

/// The level that is kept when `level` is asked for: `level` itself where
/// it is a level at or above the floor, and the floor otherwise.
pub open spec fn clamped(floor: u64, level: u64) -> u64 {
    if floor <= level <= MAX_LEVEL {
        level
    } else {
        floor
    }
}

/// A zoom level with its floor.
pub struct ZoomLevel {
    floor: u64,
    level: u64,
}

impl ZoomLevel {
    #[verifier::type_invariant]
    spec fn bounded(&self) -> bool {
        self.floor <= self.level <= MAX_LEVEL
    }

    /// The floor.
    pub closed spec fn floor(&self) -> u64 {
        self.floor
    }

    /// The level.
    pub closed spec fn level(&self) -> u64 {
        self.level
    }

    /// A zoom level with the given floor, set to `level` or, where that is
    /// no level at or above the floor, to the floor.
    pub fn new(floor: u64, level: u64) -> (r: Self)
        requires
            floor <= MAX_LEVEL,
        ensures
            r.floor() == floor,
            r.level() == clamped(floor, level),
    {
        let kept = if floor <= level && level <= MAX_LEVEL { level } else { floor };
        Self { floor, level: kept }
    }

    /// Sets the level to `level` or, where that is no level at or above the
    /// floor, to the floor.
    pub fn set(&mut self, level: u64)
        ensures
            final(self).floor() == old(self).floor(),
            final(self).level() == clamped(old(self).floor(), level),
    {
        proof {
            use_type_invariant(&*self);
        }
        if self.floor <= level && level <= MAX_LEVEL {
            self.level = level;
        } else {
            self.level = self.floor;
        }
    }

    /// The level. Whatever was done before, it is not below the floor.
    pub fn get(&self) -> (r: u64)
        ensures
            r == self.level(),
            self.floor() <= r <= MAX_LEVEL,
    {
        proof {
            use_type_invariant(self);
        }
        self.level
    }

    /// The floor.
    pub fn lowest(&self) -> (r: u64)
        ensures
            r == self.floor(),
            r <= MAX_LEVEL,
    {
        proof {
            use_type_invariant(self);
        }
        self.floor
    }
}

/// Clamping gives a level at or above the floor, and changes nothing that
/// is one already.
pub proof fn lemma_clamped_is_bounded(floor: u64, level: u64)
    requires
        floor <= MAX_LEVEL,
    ensures
        floor <= clamped(floor, level) <= MAX_LEVEL,
        clamped(floor, clamped(floor, level)) == clamped(floor, level),
        floor <= level <= MAX_LEVEL ==> clamped(floor, level) == level,
{
}

} // verus!
