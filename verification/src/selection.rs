//! Choice of the selected entity: the nearest one to a click, within an
//! admission threshold, and its survival when the snapshot is replaced.
//!
//! Squared distances are handed in as integer codes that are ordered like
//! the distances they stand for. An entity without a known position has
//! none.

use vstd::prelude::*;

verus! {

/// Whether entity `i` has a distance and lies within the threshold.
pub open spec fn admitted(distances: Seq<Option<u64>>, threshold: u64, i: int) -> bool {
    &&& 0 <= i < distances.len()
    &&& distances[i] is Some
    &&& distances[i].unwrap() <= threshold
}

/// Whether entity `i` is the one a click selects: it is admitted, no
/// admitted entity is nearer, and every admitted entity before it is
/// strictly farther away.
pub open spec fn is_nearest(distances: Seq<Option<u64>>, threshold: u64, i: int) -> bool {
    &&& admitted(distances, threshold, i)
    &&& forall|j: int| #[trigger]
        admitted(distances, threshold, j) ==> distances[i].unwrap() <= distances[j].unwrap()
    &&& forall|j: int|
        j < i && #[trigger] admitted(distances, threshold, j) ==> distances[i].unwrap()
            < distances[j].unwrap()
}

/// At most one entity is the nearest.
pub proof fn lemma_nearest_is_unique(distances: Seq<Option<u64>>, threshold: u64, i: int, j: int)
    requires
        is_nearest(distances, threshold, i),
        is_nearest(distances, threshold, j),
    ensures
        i == j,
{
    assert(admitted(distances, threshold, i));
    assert(admitted(distances, threshold, j));
}

/// Of two admitted entities at the same smallest distance, the earlier one
/// is selected.
pub proof fn lemma_tie_selects_earlier(
    distances: Seq<Option<u64>>,
    threshold: u64,
    first: int,
    second: int,
    chosen: int,
)
    requires
        first < second,
        admitted(distances, threshold, first),
        admitted(distances, threshold, second),
        distances[first] == distances[second],
        is_nearest(distances, threshold, chosen),
    ensures
        chosen != second,
{
}

/// The entity that a click selects, by its index: the first of the nearest
/// entities within `threshold`. There is none exactly when no entity is
/// admitted.
pub fn hit_test(distances: &Vec<Option<u64>>, threshold: u64) -> (r: Option<usize>)
    ensures
        match r {
            Some(i) => is_nearest(distances@, threshold, i as int),
            None => forall|j: int| !admitted(distances@, threshold, j),
        },
{
    let mut closest: Option<(usize, u64)> = None;
    let mut i: usize = 0;
    while i < distances.len()
        invariant
            i <= distances.len(),
            match closest {
                Some((k, d)) => {
                    &&& k < i
                    &&& distances@[k as int] == Some(d)
                    &&& is_nearest(distances@.take(i as int), threshold, k as int)
                },
                None => forall|j: int| !admitted(distances@.take(i as int), threshold, j),
            },
        decreases distances.len() - i,
    {
        let ghost before = distances@.take(i as int);
        let ghost after = distances@.take(i + 1);
        assert(forall|j: int| j != i ==> (admitted(after, threshold, j) <==> admitted(before, threshold, j)));
        assert(forall|j: int| 0 <= j < i ==> after[j] == before[j]);
        if let Some(d2) = distances[i] {
            if d2 <= threshold {
                match closest {
                    Some((_, best)) => {
                        if d2 < best {
                            closest = Some((i, d2));
                        }
                    },
                    None => {
                        closest = Some((i, d2));
                    },
                }
            }
        }
        i += 1;
    }
    assert(distances@.take(i as int) =~= distances@);
    match closest {
        Some((k, _)) => Some(k),
        None => None,
    }
}

/// Whether some entity of the snapshot has the identity `id`.
pub open spec fn names_entity(ids: Seq<String>, id: Seq<char>) -> bool {
    exists|i: int| 0 <= i < ids.len() && #[trigger] ids[i]@ == id
}

/// A selection is valid for a snapshot when it is empty or names one of
/// the snapshot's entities.
pub open spec fn selection_valid(selection: Option<String>, ids: Seq<String>) -> bool {
    selection is Some ==> names_entity(ids, selection.unwrap()@)
}

/// Finds the entity with identity `id`: the index of the first one, or
/// nothing exactly when the snapshot has no such entity.
pub fn linear_search(ids: &Vec<String>, id: &String) -> (r: Option<usize>)
    ensures
        match r {
            Some(i) => {
                &&& i < ids.len()
                &&& ids@[i as int]@ == id@
                &&& forall|j: int| 0 <= j < i ==> ids@[j]@ != id@
            },
            None => !names_entity(ids@, id@),
        },
{
    let mut i: usize = 0;
    while i < ids.len()
        invariant
            i <= ids.len(),
            forall|j: int| 0 <= j < i ==> ids@[j]@ != id@,
        decreases ids.len() - i,
    {
        if ids[i] == *id {
            return Some(i);
        }
        i += 1;
    }
    None
}

/// The selection after the snapshot was replaced by one whose entities
/// have the identities `ids`: it is kept exactly when it names an entity of
/// the new snapshot, and is empty otherwise.
pub fn refresh(selection: Option<String>, ids: &Vec<String>) -> (r: Option<String>)
    ensures
        r == if selection is Some && names_entity(ids@, selection.unwrap()@) {
            selection
        } else {
            None
        },
        selection_valid(r, ids@),
{
    match selection {
        Some(id) => {
            match linear_search(ids, &id) {
                Some(_) => Some(id),
                None => None,
            }
        },
        None => None,
    }
}

/// The selection after a click. If the click hits an entity, that entity
/// becomes the selection; otherwise the selection stays as it was.
pub fn select(
    selection: Option<String>,
    ids: &Vec<String>,
    distances: &Vec<Option<u64>>,
    threshold: u64,
) -> (r: Option<String>)
    requires
        ids.len() == distances.len(),
    ensures
        (forall|j: int| !admitted(distances@, threshold, j)) ==> r == selection,
        forall|i: int|
            is_nearest(distances@, threshold, i) ==> r is Some && r.unwrap()@ == ids@[i]@,
        selection_valid(selection, ids@) ==> selection_valid(r, ids@),
{
    match hit_test(distances, threshold) {
        Some(i) => {
            proof {
                assert forall|k: int| is_nearest(distances@, threshold, k) implies k == i by {
                    lemma_nearest_is_unique(distances@, threshold, k, i as int);
                }
            }
            Some(ids[i].clone())
        },
        None => selection,
    }
}

} // verus!
