//! The concurrent map that holds the buckets, `dashmap::DashMap`.
//!
//! The map is used through an exclusive reference, so no other thread works on
//! it during a call and its contents are those that the last call left.

use crate::bucket::TokenBucket;
use dashmap::DashMap;
use vstd::prelude::*;

verus! {

/// `dashmap::DashMap`, of which only what [`stored_buckets`] names is known.
#[verifier::external_type_specification]
#[verifier::external_body]
#[verifier::reject_recursive_types(K)]
#[verifier::reject_recursive_types(V)]
#[verifier::reject_recursive_types(S)]
pub struct ExDashMap<K, V, S>(dashmap::DashMap<K, V, S>);

/// The entries of the map: each key with the bucket stored under it.
pub uninterp spec fn stored_buckets(map: DashMap<String, TokenBucket>) -> Map<
    Seq<char>,
    TokenBucket,
>;

/// The entries that were used recently enough to be kept.
pub open spec fn retained(
    entries: Map<Seq<char>, TokenBucket>,
    now: u64,
    max_idle_ms: u64,
) -> Map<Seq<char>, TokenBucket> {
    entries.restrict(
        Set::new(
            |key: Seq<char>|
                entries.dom().contains(key) && entries[key]@.active(now, max_idle_ms),
        ),
    )
}

/// `DashMap::new`: a map without entries.
#[verifier::external_body]
pub(crate) fn new_store() -> (store: DashMap<String, TokenBucket>)
    ensures
        stored_buckets(store).dom() == Set::<Seq<char>>::empty(),
{
    DashMap::new()
}

/// `DashMap::get`, copied out of the guard: the bucket stored under `key`, if
/// there is one.
#[verifier::external_body]
pub(crate) fn stored_bucket(map: &DashMap<String, TokenBucket>, key: &str) -> (bucket: Option<
    TokenBucket,
>)
    ensures
        bucket == (if stored_buckets(*map).dom().contains(key@) {
            Some(stored_buckets(*map)[key@])
        } else {
            None
        }),
{
    map.get(key).map(|entry| *entry.value())
}

/// `DashMap::insert`: stores `bucket` under `key`, in place of what was stored
/// there, and leaves every other entry alone.
#[verifier::external_body]
pub(crate) fn store_bucket(
    map: &mut DashMap<String, TokenBucket>,
    key: String,
    bucket: TokenBucket,
)
    ensures
        stored_buckets(*final(map)) == stored_buckets(*old(map)).insert(key@, bucket),
{
    map.insert(key, bucket);
}

/// `DashMap::retain`: drops exactly the entries for which the predicate is
/// false, here the buckets that have been idle for longer than `max_idle_ms`
/// milliseconds, and all of them where that is zero.
#[verifier::external_body]
pub(crate) fn retain_active(map: &mut DashMap<String, TokenBucket>, now: u64, max_idle_ms: u64)
    ensures
        stored_buckets(*final(map)) == retained(stored_buckets(*old(map)), now, max_idle_ms),
{
    map.retain(|_, bucket| bucket.is_active(now, max_idle_ms));
}

/// `DashMap::len`: the number of entries.
#[verifier::external_body]
pub(crate) fn stored_count(map: &DashMap<String, TokenBucket>) -> (count: usize)
    ensures
        count == stored_buckets(*map).len(),
{
    map.len()
}

/// `DashMap::is_empty`: whether there are no entries.
#[verifier::external_body]
pub(crate) fn store_is_empty(map: &DashMap<String, TokenBucket>) -> (empty: bool)
    ensures
        empty == (stored_buckets(*map).len() == 0),
{
    map.is_empty()
}

} // verus!
