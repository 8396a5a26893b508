//! Trusted view of the outside LRU cache.
//!
//! The match-result cache and the flow cache are `lru_time_cache::LruCache`
//! values built with a capacity and no expiry duration.  Such a cache is a
//! key-value map: a lookup is exactly a map read, and an insert adds the pair
//! and may evict other entries only when the map is at capacity.  The
//! wrappers below state that over an abstract map view; nothing further is
//! assumed of which entries an eviction removes.

use vstd::prelude::*;

use crate::proc::{Process, ProcessV};

verus! {

/// The outside LRU cache type, declared so its values can live in fields.
#[verifier::external_type_specification]
#[verifier::external_body]
#[verifier::reject_recursive_types(Key)]
#[verifier::reject_recursive_types(Value)]
pub struct ExLruCache<Key, Value>(lru_time_cache::LruCache<Key, Value>);

/// A match-result cache: fingerprint to encoded `(rule id, target)`.
pub type VerdictLru = lru_time_cache::LruCache<u64, (u64, u64, u64)>;

/// A flow cache: flow fingerprint to the attributed process.
pub type FlowLru = lru_time_cache::LruCache<u64, Process>;

/// The entries of a match-result cache, as a map from fingerprint to the
/// encoded `(rule id, target)` pair.
pub uninterp spec fn verdict_cache_view(c: &VerdictLru) -> Map<u64, (u64, u64, u64)>;

/// The capacity a match-result cache was built with.
pub uninterp spec fn verdict_cache_capacity(c: &VerdictLru) -> usize;

/// Whether the cache was built by `with_capacity` with a nonzero capacity.
/// Such a cache has no expiry duration, so a lookup is a pure map read, and
/// insertion's eviction arithmetic stays in bounds.  The contracts below
/// hold only on this domain; an expiry-based cache drops entries on its own
/// and a zero-capacity cache panics on the first insert.
pub uninterp spec fn verdict_cache_bounded(c: &VerdictLru) -> bool;

/// The view of a cache with nothing in it.
pub open spec fn verdict_map_empty() -> Map<u64, (u64, u64, u64)> {
    Map::empty()
}

/// Relies on `LruCache::with_capacity`: the new cache is empty, has the given
/// capacity, and no expiry duration.  A zero capacity is excluded: the
/// cache's eviction would step out of bounds on the first insert.
#[verifier::external_body]
pub(crate) fn verdict_cache_new(capacity: usize) -> (c: VerdictLru)
    requires
        capacity >= 1,
    ensures
        verdict_cache_view(&c) == verdict_map_empty(),
        verdict_cache_capacity(&c) == capacity,
        verdict_cache_bounded(&c),
{
    lru_time_cache::LruCache::with_capacity(capacity)
}

/// Relies on `LruCache::get`: on a cache built without an expiry duration it
/// is exactly a map read and moves the entry to the recent end, changing no
/// entry.
#[verifier::external_body]
pub(crate) fn verdict_cache_get(c: &mut VerdictLru, k: u64) -> (r: Option<(u64, u64, u64)>)
    requires
        verdict_cache_bounded(old(c)),
    ensures
        verdict_cache_bounded(final(c)),
        verdict_cache_view(final(c)) == verdict_cache_view(old(c)),
        verdict_cache_capacity(final(c)) == verdict_cache_capacity(old(c)),
        r == if verdict_cache_view(old(c)).dom().contains(k) {
            Some(verdict_cache_view(old(c))[k])
        } else {
            None::<(u64, u64, u64)>
        },
{
    c.get(&k).cloned()
}

/// Relies on `LruCache::insert`: on a bounded cache the pair is present
/// afterwards; every other surviving entry is unchanged; nothing is evicted
/// while the cache is below its capacity or when the key is already present.
#[verifier::external_body]
pub(crate) fn verdict_cache_insert(c: &mut VerdictLru, k: u64, v: (u64, u64, u64))
    requires
        verdict_cache_bounded(old(c)),
    ensures
        verdict_cache_bounded(final(c)),
        verdict_cache_capacity(final(c)) == verdict_cache_capacity(old(c)),
        verdict_cache_view(final(c)).dom().finite(),
        verdict_cache_view(final(c)).dom().contains(k),
        verdict_cache_view(final(c))[k] == v,
        forall|k2: u64|
            #[trigger] verdict_cache_view(final(c)).dom().contains(k2) ==> k2 == k || (
            verdict_cache_view(old(c)).dom().contains(k2) && verdict_cache_view(final(c))[k2]
                == verdict_cache_view(old(c))[k2]),
        (verdict_cache_view(old(c)).dom().contains(k) || (verdict_cache_view(
            old(c),
        ).dom().finite() && verdict_cache_view(old(c)).dom().len() < verdict_cache_capacity(
            old(c),
        ))) ==> verdict_cache_view(final(c)) == verdict_cache_view(old(c)).insert(k, v),
{
    let _ = c.insert(k, v);
}

/// Relies on `LruCache::clear`: it removes every entry and changes neither
/// the capacity nor the absent expiry duration.
#[verifier::external_body]
pub(crate) fn verdict_cache_clear(c: &mut VerdictLru)
    requires
        verdict_cache_bounded(old(c)),
    ensures
        verdict_cache_bounded(final(c)),
        verdict_cache_view(final(c)) == verdict_map_empty(),
        verdict_cache_capacity(final(c)) == verdict_cache_capacity(old(c)),
{
    c.clear()
}

/// The entries of a flow cache, as a map from flow fingerprint to the
/// attributed process's value.
pub uninterp spec fn flow_cache_view(c: &FlowLru) -> Map<u64, ProcessV>;

/// The capacity a flow cache was built with.
pub uninterp spec fn flow_cache_capacity(c: &FlowLru) -> usize;

/// Whether the flow cache was built by `with_capacity` with a nonzero
/// capacity; the same domain bound as for the match-result cache.
pub uninterp spec fn flow_cache_bounded(c: &FlowLru) -> bool;

/// The view of a flow cache with nothing in it.
pub open spec fn flow_map_empty() -> Map<u64, ProcessV> {
    Map::empty()
}

/// Relies on `LruCache::with_capacity`: the new cache is empty, has the given
/// capacity, and no expiry duration.  A zero capacity is excluded: the
/// cache's eviction would step out of bounds on the first insert.
#[verifier::external_body]
pub(crate) fn flow_cache_new(capacity: usize) -> (c: FlowLru)
    requires
        capacity >= 1,
    ensures
        flow_cache_view(&c) == flow_map_empty(),
        flow_cache_capacity(&c) == capacity,
        flow_cache_bounded(&c),
{
    lru_time_cache::LruCache::with_capacity(capacity)
}

/// Relies on `LruCache::get`: on a cache built without an expiry duration it
/// is exactly a map read and moves the entry to the recent end, changing no
/// entry.  The hit is handed out as a clone.
#[verifier::external_body]
pub(crate) fn flow_cache_get(c: &mut FlowLru, k: u64) -> (r: Option<Process>)
    requires
        flow_cache_bounded(old(c)),
    ensures
        flow_cache_bounded(final(c)),
        flow_cache_view(final(c)) == flow_cache_view(old(c)),
        flow_cache_capacity(final(c)) == flow_cache_capacity(old(c)),
        r matches Some(p) ==> flow_cache_view(old(c)).dom().contains(k) && p@ == flow_cache_view(
            old(c),
        )[k],
        r is None ==> !flow_cache_view(old(c)).dom().contains(k),
{
    c.get(&k).cloned()
}

/// Relies on `LruCache::insert`: on a bounded cache the pair is present
/// afterwards; every other surviving entry is unchanged; nothing is evicted
/// while the cache is below its capacity or when the key is already present.
#[verifier::external_body]
pub(crate) fn flow_cache_insert(c: &mut FlowLru, k: u64, v: Process)
    requires
        flow_cache_bounded(old(c)),
    ensures
        flow_cache_bounded(final(c)),
        flow_cache_capacity(final(c)) == flow_cache_capacity(old(c)),
        flow_cache_view(final(c)).dom().finite(),
        flow_cache_view(final(c)).dom().contains(k),
        flow_cache_view(final(c))[k] == v@,
        forall|k2: u64|
            #[trigger] flow_cache_view(final(c)).dom().contains(k2) ==> k2 == k || (flow_cache_view(
                old(c),
            ).dom().contains(k2) && flow_cache_view(final(c))[k2] == flow_cache_view(old(c))[k2]),
        (flow_cache_view(old(c)).dom().contains(k) || (flow_cache_view(old(c)).dom().finite()
            && flow_cache_view(old(c)).dom().len() < flow_cache_capacity(old(c))))
            ==> flow_cache_view(final(c)) == flow_cache_view(old(c)).insert(k, v@),
{
    let _ = c.insert(k, v);
}

} // verus!
