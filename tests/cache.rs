//! The block-indexed cache, driven as its caller drives it: plan a fetch,
//! fetch the misses, hand the values back.
use batch_auction::recent_block_cache::{
    miss_chunks, Block, CacheConfig, CacheConfigError, CacheKey, CacheState, REQUEST_BATCH_SIZE,
};
use std::collections::HashSet;

#[derive(Clone, Debug, PartialEq, Eq)]
struct TestValue {
    key: u64,
    data: String,
}

impl TestValue {
    fn new(key: u64, data: &str) -> Self {
        Self { key, data: data.to_string() }
    }
}

impl CacheKey for TestValue {
    fn key_of(&self) -> u64 {
        self.key
    }

    fn cache_key(&self) -> u64 {
        self.key
    }
}

/// A fetch as the cache's caller runs it: returns the values and how many
/// keys were fetched.
fn fetch(cache: &mut CacheState<TestValue>, source: &[TestValue], keys: &[u64], block: Block) -> (Vec<TestValue>, usize) {
    let plan = cache.begin_fetch(&keys.to_vec(), block);
    let mut result = Vec::new();
    for (b, k) in &plan.hits {
        result.extend(cache.values(*b, *k).unwrap().iter().cloned());
    }
    for chunk in miss_chunks(&plan.misses) {
        let fetched: Vec<TestValue> = source.iter().filter(|v| chunk.contains(&v.key)).cloned().collect();
        result.extend(fetched.iter().cloned());
        cache.complete_fetch(plan.miss_block, &chunk, fetched);
    }
    (result, plan.misses.len())
}

fn update(cache: &mut CacheState<TestValue>, source: &[TestValue], block: u64) {
    let keys = cache.keys_of_recently_used_entries();
    let fetched: Vec<TestValue> = source.iter().filter(|v| keys.contains(&v.key)).cloned().collect();
    cache.complete_update(block, &keys, fetched);
}

fn config(entries: usize, blocks: u64, age: u64) -> CacheConfig {
    CacheConfig {
        number_of_entries_to_auto_update: entries,
        number_of_blocks_to_cache: blocks,
        maximum_recent_block_age: age,
        ..Default::default()
    }
}

fn key_set(keys: Vec<u64>) -> HashSet<u64> {
    keys.into_iter().collect()
}

#[test]
fn marks_recently_used() {
    let source = vec![TestValue::new(0, "a"), TestValue::new(1, "b"), TestValue::new(2, "c")];
    let mut cache = CacheState::new(&config(2, 1, 0), 10).unwrap();
    fetch(&mut cache, &source, &[0], Block::Recent);
    fetch(&mut cache, &source, &[1], Block::Recent);
    assert_eq!(key_set(cache.keys_of_recently_used_entries()), key_set(vec![0, 1]));
    // 1 is cached, 2 is not; 3 never has data and is not marked.
    fetch(&mut cache, &source, &[1, 2, 3], Block::Recent);
    assert_eq!(key_set(cache.keys_of_recently_used_entries()), key_set(vec![1, 2]));
}

#[test]
fn auto_updates_recently_used() {
    let mut cache = CacheState::new(&config(2, 1, 0), 10).unwrap();
    let initial = vec![TestValue::new(0, "hello"), TestValue::new(1, "ether")];
    let (result, _) = fetch(&mut cache, &initial, &[0, 1], Block::Recent);
    assert_eq!(result.len(), 2);
    let updated = vec![TestValue::new(0, "hello_1"), TestValue::new(1, "ether_1")];
    update(&mut cache, &updated, 10);
    let (result, fetched) = fetch(&mut cache, &[], &[0, 1], Block::Recent);
    assert_eq!(fetched, 0);
    assert_eq!(result.len(), 2);
    for value in updated {
        assert!(result.contains(&value));
    }
}

#[test]
fn cache_hit_and_miss() {
    let mut cache = CacheState::new(&config(2, 1, 0), 10).unwrap();
    let value0 = TestValue::new(0, "0");
    let value1 = TestValue::new(1, "1");
    let value2 = TestValue::new(2, "2");
    fetch(&mut cache, &[value0.clone(), value1.clone()], &[0, 1], Block::Recent);
    let (result, fetched) = fetch(&mut cache, &[value2.clone()], &[1, 2], Block::Recent);
    assert_eq!(fetched, 1);
    assert_eq!(result.len(), 2);
    assert!(result.contains(&value1));
    assert!(result.contains(&value2));
    let (result, fetched) = fetch(&mut cache, &[], &[0, 1, 2], Block::Recent);
    assert_eq!(fetched, 0);
    assert_eq!(result.len(), 3);
    assert!(result.contains(&value0) && result.contains(&value1) && result.contains(&value2));
}

#[test]
fn uses_most_recent_cached_for_latest_block() {
    let mut cache = CacheState::new(&config(2, 1, 10), 10).unwrap();
    let (result, _) = fetch(&mut cache, &[TestValue::new(0, "foo")], &[0], Block::Number(5));
    assert_eq!(result, vec![TestValue::new(0, "foo")]);
    let (result, _) = fetch(&mut cache, &[TestValue::new(0, "bar")], &[0], Block::Number(6));
    assert_eq!(result, vec![TestValue::new(0, "bar")]);
    let (result, _) = fetch(&mut cache, &[], &[0], Block::Recent);
    assert_eq!(result, vec![TestValue::new(0, "bar")]);
    let (result, _) = fetch(&mut cache, &[TestValue::new(0, "baz")], &[0], Block::Number(4));
    assert_eq!(result, vec![TestValue::new(0, "baz")]);
    let (result, _) = fetch(&mut cache, &[], &[0], Block::Recent);
    assert_eq!(result, vec![TestValue::new(0, "bar")]);
}

#[test]
fn evicts_old_blocks_from_cache() {
    let source: Vec<TestValue> = (0..10).map(|k| TestValue::new(k, "")).collect();
    let mut cache = CacheState::new(&config(2, 5, 0), 10).unwrap();
    let keys: Vec<u64> = (0..10).collect();
    fetch(&mut cache, &source, &keys, Block::Number(10));
    let cached_at = |cache: &CacheState<TestValue>, block: u64| (0..10).filter(|k| cache.values(block, *k).is_some()).count();
    assert_eq!(cached_at(&cache, 10), 10);
    update(&mut cache, &source, 14);
    assert_eq!(cached_at(&cache, 10) + cached_at(&cache, 14), 12);
    update(&mut cache, &source, 15);
    assert_eq!(cached_at(&cache, 10), 0);
    assert_eq!(cached_at(&cache, 14) + cached_at(&cache, 15), 4);
}

#[test]
fn respects_max_age_limit_for_recent() {
    let mut cache = CacheState::new(&config(1, 5, 2), 10).unwrap();
    fetch(&mut cache, &[], &[0], Block::Number(7));
    assert!(cache.get(0, Block::Number(7)).is_some());
    assert!(cache.get(0, Block::Recent).is_none());
    fetch(&mut cache, &[], &[0], Block::Number(8));
    assert!(cache.get(0, Block::Number(7)).is_some());
    assert!(cache.get(0, Block::Number(8)).is_some());
    assert!(cache.get(0, Block::Recent).is_some());
}

#[test]
fn repeated_exact_fetch_fetches_nothing() {
    let source = vec![TestValue::new(3, "x"), TestValue::new(3, "z"), TestValue::new(4, "y")];
    let mut cache = CacheState::new(&config(4, 3, 0), 20).unwrap();
    let (first, fetched) = fetch(&mut cache, &source, &[3, 4, 5], Block::Number(20));
    assert_eq!(fetched, 3);
    let (second, fetched) = fetch(&mut cache, &[], &[3, 4, 5], Block::Number(20));
    assert_eq!(fetched, 0);
    assert_eq!(first, second);
}

#[test]
fn update_drops_blocks_older_than_the_window() {
    let source = vec![TestValue::new(1, "a")];
    let mut cache = CacheState::new(&config(1, 3, 0), 0).unwrap();
    fetch(&mut cache, &source, &[1], Block::Number(100));
    fetch(&mut cache, &source, &[1], Block::Number(102));
    update(&mut cache, &source, 104);
    assert!(cache.values(100, 1).is_none());
    assert!(cache.values(102, 1).is_some());
    assert!(cache.values(104, 1).is_some());
    assert_eq!(cache.last_update_block(), 104);
    update(&mut cache, &source, 50);
    assert_eq!(cache.last_update_block(), 104);
}

#[test]
fn zero_sizes_are_refused() {
    assert!(matches!(CacheState::<TestValue>::new(&config(0, 1, 0), 0), Err(CacheConfigError::ZeroEntriesToAutoUpdate)));
    assert!(matches!(CacheState::<TestValue>::new(&config(1, 0, 0), 0), Err(CacheConfigError::ZeroBlocksToCache)));
}

#[test]
fn misses_are_fetched_in_chunks() {
    let misses: Vec<u64> = (0..450).collect();
    let chunks = miss_chunks(&misses);
    assert_eq!(chunks.len(), 3);
    assert_eq!(chunks[0].len(), REQUEST_BATCH_SIZE);
    assert_eq!(chunks[2].len(), 50);
    assert_eq!(chunks.concat(), misses);
    assert!(miss_chunks(&Vec::new()).is_empty());
}
