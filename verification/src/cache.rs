//! A generic, string-keyed lookup/insert store.
//!
//! The cache is deliberately a pure store: it knows nothing about how
//! entries are produced. Generation of missing values belongs to the
//! caller (see [`crate::http::CachingWrapper`]), which keeps the cache
//! reusable for any cloneable value type.

use vstd::hash_map::StringHashMap;
use vstd::pervasive::cloned;
use vstd::prelude::*;

verus! {

/// A string-keyed store of cloneable values. At most one entry exists per
/// key; a later `insert` for the same key overwrites the earlier value, and
/// entries never expire.
pub trait Cache<T: Clone>: Sized {
    /// The entries currently held, as a map from key characters to values.
    spec fn contents(&self) -> Map<Seq<char>, T>;

    /// Returns the value stored under `key`, or an explicit "no value"
    /// result when the key holds none. The returned value is a clone,
    /// fully independent of the stored entry.
    fn lookup(&self, key: &str) -> (r: Option<T>)
        ensures
            r is Some <==> self.contents().contains_key(key@),
            r is Some ==> cloned(self.contents()[key@], r.unwrap()),
    ;

    /// Stores `value` under `key`, overwriting any prior value for the key.
    fn insert(&mut self, key: &str, value: T)
        ensures
            final(self).contents() == old(self).contents().insert(key@, value),
    ;
}

/// An in-process [`Cache`] backed by a hash map.
#[verifier::reject_recursive_types(T)]
pub struct InMemoryCache<T> {
    data: StringHashMap<T>,
}

impl<T: Clone> InMemoryCache<T> {
    /// Creates a cache with no entries.
    pub fn new() -> (c: InMemoryCache<T>)
        ensures
            c.contents() == Map::<Seq<char>, T>::empty(),
    {
        InMemoryCache { data: StringHashMap::new() }
    }
}

impl<T: Clone> Cache<T> for InMemoryCache<T> {
    closed spec fn contents(&self) -> Map<Seq<char>, T> {
        self.data@
    }

    fn lookup(&self, key: &str) -> (r: Option<T>) {
        match self.data.get(key) {
            Some(v) => Some(v.clone()),
            None => None,
        }
    }

    fn insert(&mut self, key: &str, value: T) {
        self.data.insert(key.to_owned(), value);
    }
}

/// Creates an empty in-process cache.
pub fn new_cache<T: Clone>() -> (c: InMemoryCache<T>)
    ensures
        c.contents() == Map::<Seq<char>, T>::empty(),
{
    InMemoryCache::new()
}

/// After storing a value under a key, that key holds exactly that value:
/// together with the contracts of [`Cache::insert`] and [`Cache::lookup`],
/// an `insert(k, v)` followed by a `lookup(k)` yields a clone of `v`.
pub proof fn lemma_insert_then_lookup<T>(m: Map<Seq<char>, T>, k: Seq<char>, v: T)
    ensures
        m.insert(k, v).contains_key(k),
        m.insert(k, v)[k] == v,
{
}

/// A key that was never inserted maps to nothing: a `lookup` on a freshly
/// created cache returns the explicit "no value" result for every key.
pub proof fn lemma_lookup_never_inserted<T>(k: Seq<char>)
    ensures
        !Map::<Seq<char>, T>::empty().contains_key(k),
{
}

} // verus!
