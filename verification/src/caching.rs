//! A memoising store of decoded payloads: values held in memory, over a
//! durable layer that keeps one file per key under a root directory.

use vstd::prelude::*;
use vstd::hash_map::StringHashMap;
use vstd::string::StringExecFns;
use crate::text::{ascii_alphanumeric, is_ascii_alphanumeric, to_chars};

verus! {

/// The character that a cache key holds in place of `c`: `c` itself if it
/// is an ASCII letter or digit, and a hyphen otherwise.
pub open spec fn key_char(c: char) -> char {
    if is_ascii_alphanumeric(c) {
        c
    } else {
        '-'
    }
}

/// The cache key of `raw`: every character that is no ASCII letter or
/// digit is replaced by a hyphen. Length and order are kept; different
/// inputs may share a key.
pub open spec fn normalised_key(raw: Seq<char>) -> Seq<char> {
    raw.map_values(|c: char| key_char(c))
}

/// Whether `key` holds only ASCII letters, digits and hyphens.
pub open spec fn is_normalised(key: Seq<char>) -> bool {
    forall|i: int| 0 <= i < key.len() ==> is_ascii_alphanumeric(#[trigger] key[i]) || key[i] == '-'
}

/// The path of the durable entry for `key` under the root `location`.
pub open spec fn durable_path(location: Seq<char>, key: Seq<char>) -> Seq<char> {
    location + seq!['/'] + key
}

/// Normalising a key again does not change it. Normalising keeps the
/// length, and it leaves alone whatever holds only ASCII letters, digits
/// and hyphens.
pub proof fn lemma_normalised_key_idempotent(raw: Seq<char>)
    ensures
        normalised_key(normalised_key(raw)) == normalised_key(raw),
        normalised_key(raw).len() == raw.len(),
        is_normalised(raw) ==> normalised_key(raw) == raw,
        is_normalised(normalised_key(raw)),
{
    assert(normalised_key(normalised_key(raw)) =~= normalised_key(raw));
    if is_normalised(raw) {
        assert(normalised_key(raw) =~= raw);
    }
}

/// Computes the cache key of `raw`.
pub fn cache_key_of(raw: &str) -> (r: String)
    ensures
        r@ == normalised_key(raw@),
{
    let chars = to_chars(raw);
    let mut out = String::new();
    let mut i: usize = 0;
    while i < chars.len()
        invariant
            i <= chars.len(),
            chars@ == raw@,
            out@ == normalised_key(raw@.take(i as int)),
        decreases chars.len() - i,
    {
        let c = chars[i];
        let mapped = if ascii_alphanumeric(c) { c } else { '-' };
        out.push(mapped);
        assert(normalised_key(raw@.take(i as int)).push(key_char(c)) =~= normalised_key(
            raw@.take(i + 1),
        ));
        i += 1;
    }
    assert(raw@.take(i as int) =~= raw@);
    out
}

/// The store. `V` is the type of the decoded values and `F` the function
/// that decodes a payload read from the durable layer.
#[verifier::reject_recursive_types(V)]
pub struct FilesystemCache<V, F> where V: Clone, F: Fn(&String) -> V {
    location: String,
    transform: F,
    data: StringHashMap<V>,
}

impl<V, F> FilesystemCache<V, F> where V: Clone, F: Fn(&String) -> V {
    /// The root directory of the durable layer.
    pub closed spec fn location(&self) -> Seq<char> {
        self.location@
    }

    /// The decode function.
    pub closed spec fn decoder(&self) -> F {
        self.transform
    }

    /// The decoded values held in memory, by key.
    pub closed spec fn entries(&self) -> Map<Seq<char>, V> {
        self.data@
    }

    /// Whether the decode function accepts every payload.
    pub open spec fn decodes_all(&self) -> bool {
        forall|payload: &String| call_requires(self.decoder(), (payload,))
    }

    /// An empty store over the durable layer rooted at `location`.
    pub fn new_from_location(location: &str, transform: F) -> (r: Self)
        ensures
            r.location() == location@,
            r.decoder() == transform,
            r.entries() == Map::<Seq<char>, V>::empty(),
    {
        Self { location: String::from_str(location), transform, data: StringHashMap::new() }
    }

    /// An empty store over the durable layer rooted at the directory
    /// `cache`.
    pub fn new(transform: F) -> (r: Self)
        ensures
            r.location() == "cache"@,
            r.decoder() == transform,
            r.entries() == Map::<Seq<char>, V>::empty(),
    {
        Self::new_from_location("cache", transform)
    }

    /// The path of the durable entry for `key`.
    pub fn cache_path(&self, key: &String) -> (r: String)
        ensures
            r@ == durable_path(self.location(), key@),
    {
        let mut path = self.location.clone();
        path.push('/');
        path.append(key.as_str());
        path
    }

    /// A normalised name for `input_str`, fit to be the key of a durable
    /// entry. It depends on `input_str` alone.
    pub fn cache_key(&self, input_str: &str) -> (r: String)
        ensures
            r@ == normalised_key(input_str@),
    {
        cache_key_of(input_str)
    }

    /// The value for `key`. If the store holds one in memory, a clone of
    /// it is returned and `read` is not called. Otherwise `read` is called
    /// once, with the path of the durable entry. If it fails, its error is
    /// returned and the store stays as it was, so that a later call tries
    /// again. If it succeeds, the payload is decoded, and the decoded value
    /// is returned and a clone of it is kept under `key`.
    pub fn get<E, R>(&mut self, key: &String, read: R) -> (r: Result<V, E>) where
        R: FnOnce(&String) -> Result<String, E>,
        requires
            old(self).decodes_all(),
            forall|path: &String|
                path@ == durable_path(old(self).location(), key@) ==> call_requires(read, (path,)),
        ensures
            final(self).location() == old(self).location(),
            final(self).decoder() == old(self).decoder(),
            old(self).entries().contains_key(key@) ==> {
                &&& final(self).entries() == old(self).entries()
                &&& r is Ok
                &&& cloned(old(self).entries()[key@], r->Ok_0)
            },
            !old(self).entries().contains_key(key@) ==> exists|
                path: &String,
                outcome: Result<String, E>,
            |
                {
                    &&& path@ == durable_path(old(self).location(), key@)
                    &&& #[trigger] call_ensures(read, (path,), outcome)
                    &&& after_read(*old(self), *final(self), key@, outcome, r)
                },
    {
        let held = match self.data.get(key.as_str()) {
            Some(value) => Some(value.clone()),
            None => None,
        };
        match held {
            Some(value) => Ok(value),
            None => {
                let path = self.cache_path(key);
                let outcome = read(&path);
                let r = self.keep(key, outcome);
                proof {
                    assert(call_ensures(read, (&path,), outcome));
                }
                r
            },
        }
    }

    /// Takes in what a read of the durable entry for `key` gave. An error
    /// is handed on and the store stays as it was. A payload is decoded;
    /// the decoded value is returned and a clone of it is kept under `key`.
    pub fn keep<E>(&mut self, key: &String, outcome: Result<String, E>) -> (r: Result<V, E>)
        requires
            old(self).decodes_all(),
        ensures
            final(self).location() == old(self).location(),
            final(self).decoder() == old(self).decoder(),
            after_read(*old(self), *final(self), key@, outcome, r),
    {
        match outcome {
            Ok(payload) => {
                assert(call_requires(self.decoder(), (&payload,)));
                let value = (self.transform)(&payload);
                self.data.insert(key.clone(), value.clone());
                assert(self.entries() =~= old(self).entries().insert(key@, self.entries()[key@]));
                Ok(value)
            },
            Err(e) => Err(e),
        }
    }
}

/// How a store and the result of `get` stand after the durable read for
/// `key` ended with `outcome`.
pub open spec fn after_read<V, F, E>(
    before: FilesystemCache<V, F>,
    after: FilesystemCache<V, F>,
    key: Seq<char>,
    outcome: Result<String, E>,
    r: Result<V, E>,
) -> bool where V: Clone, F: Fn(&String) -> V {
    match outcome {
        Err(e) => r == Err::<V, E>(e) && after.entries() == before.entries(),
        Ok(payload) => {
            &&& r is Ok
            &&& call_ensures(before.decoder(), (&payload,), r->Ok_0)
            &&& cloned(r->Ok_0, after.entries()[key])
            &&& after.entries() == before.entries().insert(key, after.entries()[key])
        },
    }
}

} // verus!
