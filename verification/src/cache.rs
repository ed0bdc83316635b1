//! The read-side value cache in front of the device.
//!
//! The cache is a bounded least-recently-used map from key to value,
//! provided by the `lru_time_cache` crate.  The store keeps it
//! coherent: a pair sits in the cache only while it matches the
//! stored item.

use vstd::prelude::*;

use lru_time_cache::LruCache;

verus! {

#[verifier::external_type_specification]
#[verifier::external_body]
#[verifier::reject_recursive_types(Key)]
#[verifier::reject_recursive_types(Value)]
pub struct ExLruCache<Key, Value>(LruCache<Key, Value>);

/// The key/value pairs a cache currently holds.
pub uninterp spec fn lru_contents(c: LruCache<Vec<u8>, Vec<u8>>) -> Map<Seq<u8>, Seq<u8>>;

/// The capacity bound a cache was created with.
pub uninterp spec fn lru_bound(c: LruCache<Vec<u8>, Vec<u8>>) -> usize;

/// Relies on `LruCache::with_capacity`: a fresh cache bounded by
/// `items` holds nothing.
#[verifier::external_body]
fn lru_with_capacity(items: usize) -> (r: LruCache<Vec<u8>, Vec<u8>>)
    ensures
        lru_bound(r) == items,
        forall|k: Seq<u8>| !lru_contents(r).contains_key(k),
{
    LruCache::with_capacity(items)
}

/// Relies on `LruCache::insert`: the pair is stored; other entries
/// either stay or are evicted, never changed.  A cache bounded by
/// zero would drain past its own length, so that bound is excluded.
#[verifier::external_body]
fn lru_insert(c: &mut LruCache<Vec<u8>, Vec<u8>>, key: &[u8], val: &[u8])
    requires
        lru_bound(*old(c)) >= 1,
    ensures
        lru_bound(*final(c)) == lru_bound(*old(c)),
        lru_contents(*final(c)).submap_of(lru_contents(*old(c)).insert(key@, val@)),
        lru_contents(*final(c)).contains_pair(key@, val@),
{
    let _ = c.insert(key.to_vec(), val.to_vec());
}

/// Relies on `LruCache::get`: what comes back is the value stored
/// under the key; entries are only refreshed or dropped, never
/// changed.
#[verifier::external_body]
fn lru_get(c: &mut LruCache<Vec<u8>, Vec<u8>>, key: &[u8]) -> (r: Option<Vec<u8>>)
    ensures
        lru_bound(*final(c)) == lru_bound(*old(c)),
        lru_contents(*final(c)).submap_of(lru_contents(*old(c))),
        r matches Some(v) ==> lru_contents(*old(c)).contains_pair(key@, v@),
{
    match c.get(key) {
        Some(v) => Some(v.clone()),
        None => None,
    }
}

/// Relies on `LruCache::remove`: exactly the given key is unbound.
#[verifier::external_body]
fn lru_remove(c: &mut LruCache<Vec<u8>, Vec<u8>>, key: &[u8])
    ensures
        lru_bound(*final(c)) == lru_bound(*old(c)),
        lru_contents(*final(c)) == lru_contents(*old(c)).remove(key@),
{
    let _ = c.remove(key);
}

/// Relies on `LruCache::clear`: every entry is removed.
#[verifier::external_body]
fn lru_clear(c: &mut LruCache<Vec<u8>, Vec<u8>>)
    ensures
        lru_bound(*final(c)) == lru_bound(*old(c)),
        forall|k: Seq<u8>| !lru_contents(*final(c)).contains_key(k),
{
    c.clear();
}

/// A bounded cache of recently read items.
pub struct ReadCache {
    cache: LruCache<Vec<u8>, Vec<u8>>,
}

impl ReadCache {
    /// The pairs currently cached.
    pub closed spec fn contents(&self) -> Map<Seq<u8>, Seq<u8>> {
        lru_contents(self.cache)
    }

    /// The cache can hold at least one item.
    pub closed spec fn wf(&self) -> bool {
        lru_bound(self.cache) >= 1
    }

    /// An empty cache with the default capacity.
    pub fn new() -> (r: ReadCache)
        ensures
            r.wf(),
            r.contents() == Map::<Seq<u8>, Seq<u8>>::empty(),
    {
        Self::with_capacity(512)
    }

    /// An empty cache bounded by `items` entries, at least one.
    pub fn with_capacity(items: usize) -> (r: ReadCache)
        ensures
            r.wf(),
            r.contents() == Map::<Seq<u8>, Seq<u8>>::empty(),
    {
        let bound: usize = if items == 0 {
            1
        } else {
            items
        };
        let r = ReadCache { cache: lru_with_capacity(bound) };
        proof {
            assert(r.contents() =~= Map::<Seq<u8>, Seq<u8>>::empty());
        }
        r
    }

    /// Caches a pair, possibly evicting least-recently-used entries.
    pub fn insert(&mut self, key: &[u8], val: &[u8])
        requires
            old(self).wf(),
        ensures
            final(self).wf(),
            final(self).contents().submap_of(old(self).contents().insert(key@, val@)),
            final(self).contents().contains_pair(key@, val@),
    {
        lru_insert(&mut self.cache, key, val);
    }

    /// The cached value under `key`, if any.
    pub fn get(&mut self, key: &[u8]) -> (r: Option<Vec<u8>>)
        requires
            old(self).wf(),
        ensures
            final(self).wf(),
            final(self).contents().submap_of(old(self).contents()),
            r matches Some(v) ==> old(self).contents().contains_pair(key@, v@),
    {
        lru_get(&mut self.cache, key)
    }

    /// Drops the entry under `key`, if any.
    pub fn remove(&mut self, key: &[u8])
        requires
            old(self).wf(),
        ensures
            final(self).wf(),
            final(self).contents() == old(self).contents().remove(key@),
    {
        lru_remove(&mut self.cache, key);
    }

    /// Drops every entry.
    pub fn clear(&mut self)
        requires
            old(self).wf(),
        ensures
            final(self).wf(),
            final(self).contents() == Map::<Seq<u8>, Seq<u8>>::empty(),
    {
        lru_clear(&mut self.cache);
        proof {
            assert(self.contents() =~= Map::<Seq<u8>, Seq<u8>>::empty());
        }
    }
}

} // verus!
