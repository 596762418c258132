//! The set of recently used cache keys, in an `LruCache` of the `cached`
//! crate, with what its methods do to the keys, most recent first.
use vstd::prelude::*;

use cached::Cached;
use cached::LruCache;

verus! {

/// `cached::LruCache`, opaque: what it holds is named by `lru_keys`.
#[verifier::external_type_specification]
#[verifier::external_body]
#[verifier::reject_recursive_types(K)]
#[verifier::reject_recursive_types(V)]
#[verifier::reject_recursive_types(S)]
pub struct ExLruCache<K, V, S>(cached::LruCache<K, V, S>);

/// The keys of the cache, most recently used first.
pub uninterp spec fn lru_keys(c: LruCache<u64, ()>) -> Seq<u64>;

/// The number of keys the cache was made to hold.
pub uninterp spec fn lru_capacity(c: LruCache<u64, ()>) -> nat;

/// `keys` after `key` is used: it moves to the front, and the least recently
/// used key leaves when there are more than `capacity`.
pub open spec fn touched(keys: Seq<u64>, key: u64, capacity: nat) -> Seq<u64> {
    let s = seq![key] + keys.filter(|k: u64| k != key);
    if s.len() > capacity {
        s.subrange(0, capacity as int)
    } else {
        s
    }
}

/// Relies on `LruCache::new`, which panics for a zero size: an empty cache
/// of that capacity.
#[verifier::external_body]
pub(crate) fn lru_new(capacity: usize) -> (r: LruCache<u64, ()>)
    requires
        capacity > 0,
    ensures
        lru_keys(r) == Seq::<u64>::empty(),
        lru_capacity(r) == capacity,
{
    LruCache::new(capacity)
}

/// Relies on `Cached::cache_set` of `LruCache`: the key becomes the most
/// recently used, and the least recently used one leaves past capacity.
#[verifier::external_body]
pub(crate) fn lru_touch(c: &mut LruCache<u64, ()>, key: u64)
    ensures
        lru_capacity(*final(c)) == lru_capacity(*old(c)),
        lru_keys(*final(c)) == touched(lru_keys(*old(c)), key, lru_capacity(*old(c))),
{
    c.cache_set(key, ());
}

/// Relies on `LruCache::key_order`: the keys, most recently used first.
#[verifier::external_body]
pub(crate) fn lru_key_order(c: &LruCache<u64, ()>) -> (r: Vec<u64>)
    ensures
        r@ == lru_keys(*c),
{
    c.key_order()
}

}
