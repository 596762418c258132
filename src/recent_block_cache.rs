//! The state and decisions of a cache of on-chain data indexed by block and
//! key. Fetching from the node and waiting happen around it: a fetch first
//! asks which keys are cached (`begin_fetch`), the caller fetches the
//! others in chunks and hands the values back (`complete_fetch`); on each new
//! block the caller fetches the recently used keys and hands them back
//! (`complete_update`).
use vstd::prelude::*;

use crate::lru::{lru_key_order, lru_new, lru_touch};
use cached::LruCache;

verus! {

/// How many keys at most are fetched in one request.
pub const REQUEST_BATCH_SIZE: usize = 200;

/// The state of the chain at which data is wanted.
#[derive(Clone, Copy, Debug, PartialEq, Eq, Hash, PartialOrd, Ord)]
pub enum Block {
    /// The most recent state, on a best effort basis: slightly older cached
    /// data may be returned.
    Recent,
    Number(u64),
}

/// The key under which a value is cached; implemented by the values.
pub trait CacheKey {
    spec fn key_of(&self) -> u64;

    fn cache_key(&self) -> (r: u64)
        ensures
            r == self.key_of(),
    ;
}

/// Relies on `Duration::from_secs`, which does not panic.
pub assume_specification[ std::time::Duration::from_secs ](secs: u64) -> std::time::Duration;

/// Tuning of the cache.
#[derive(Clone, Copy, Debug)]
pub struct CacheConfig {
    /// Blocks stay cached until they are this many blocks old; not zero.
    pub number_of_blocks_to_cache: u64,
    /// How many recently used keys are refreshed on each new block; not zero.
    pub number_of_entries_to_auto_update: usize,
    /// The most that a cached block may lag behind for `Block::Recent`.
    pub maximum_recent_block_age: u64,
    /// How often a failed fetch is repeated.
    pub max_retries: u32,
    /// The pause between repeated fetches.
    pub delay_between_retries: std::time::Duration,
}

impl Default for CacheConfig {
    fn default() -> (r: CacheConfig)
        ensures
            r.number_of_blocks_to_cache == 1,
            r.number_of_entries_to_auto_update == 1,
            r.maximum_recent_block_age == 0,
            r.max_retries == 0,
    {
        CacheConfig {
            number_of_blocks_to_cache: 1,
            number_of_entries_to_auto_update: 1,
            maximum_recent_block_age: 0,
            max_retries: 0,
            delay_between_retries: std::time::Duration::from_secs(0),
        }
    }
}

/// Why a cache could not be made.
#[derive(Clone, Copy, Debug, PartialEq, Eq)]
pub enum CacheConfigError {
    ZeroBlocksToCache,
    ZeroEntriesToAutoUpdate,
}

/// The values cached for one key at one block.
pub struct CacheEntry<V> {
    pub block: u64,
    pub key: u64,
    pub values: Vec<V>,
}

pub open spec fn entries_unique<V>(s: Seq<CacheEntry<V>>) -> bool {
    forall|i: int, j: int|
        #![trigger s[i], s[j]]
        0 <= i < j < s.len() ==> !(s[i].block == s[j].block && s[i].key == s[j].key)
}

pub open spec fn records_unique(s: Seq<(u64, u64)>) -> bool {
    forall|i: int, j: int| #![trigger s[i], s[j]] 0 <= i < j < s.len() ==> s[i].0 != s[j].0
}

/// The values cached at `(block, key)`: those of the first entry for it.
pub open spec fn lookup<V>(entries: Seq<CacheEntry<V>>, block: u64, key: u64) -> Option<Seq<V>>
    decreases entries.len(),
{
    if entries.len() == 0 {
        None
    } else if entries[0].block == block && entries[0].key == key {
        Some(entries[0].values@)
    } else {
        lookup(entries.drop_first(), block, key)
    }
}

/// The block at which `key` was cached most recently: the first record of it.
pub open spec fn lookup_recent(recent: Seq<(u64, u64)>, key: u64) -> Option<u64>
    decreases recent.len(),
{
    if recent.len() == 0 {
        None
    } else if recent[0].0 == key {
        Some(recent[0].1)
    } else {
        lookup_recent(recent.drop_first(), key)
    }
}

/// What a fetch needs: the cached `(block, key)` pairs to read, the keys to
/// fetch, and the block to fetch them at.
pub struct FetchPlan {
    pub hits: Vec<(u64, u64)>,
    pub misses: Vec<u64>,
    pub miss_block: u64,
}

/// The cache's state.
pub struct CacheState<V> {
    recently_used: LruCache<u64, ()>,
    cached_most_recently_at_block: Vec<(u64, u64)>,
    entries: Vec<CacheEntry<V>>,
    last_update_block: u64,
    maximum_recent_block_age: u64,
    number_of_blocks_to_cache: u64,
}

impl<V: CacheKey> CacheState<V> {
    pub closed spec fn entry(&self, block: u64, key: u64) -> Option<Seq<V>> {
        lookup(self.entries@, block, key)
    }

    /// Each `(block, key)` has at most one entry, and each key at most one
    /// record of the block at which it was cached most recently.
    pub closed spec fn wf(&self) -> bool {
        entries_unique(self.entries@) && records_unique(self.cached_most_recently_at_block@)
    }

    pub closed spec fn recent_block(&self, key: u64) -> Option<u64> {
        lookup_recent(self.cached_most_recently_at_block@, key)
    }

    pub closed spec fn lru(&self) -> Seq<u64> {
        crate::lru::lru_keys(self.recently_used)
    }

    pub closed spec fn lru_cap(&self) -> nat {
        crate::lru::lru_capacity(self.recently_used)
    }

    pub closed spec fn last_update(&self) -> u64 {
        self.last_update_block
    }

    pub closed spec fn max_age(&self) -> u64 {
        self.maximum_recent_block_age
    }

    pub closed spec fn blocks_to_cache(&self) -> u64 {
        self.number_of_blocks_to_cache
    }

    /// The block whose entry answers a request for `key` at `block`:
    /// `Number(n)` asks for `n`; `Recent` for the block at which the key was
    /// cached most recently, unless that lags behind the last update by more
    /// than the maximal age.
    pub open spec fn resolved_block(&self, key: u64, block: Block) -> Option<u64> {
        match block {
            Block::Number(n) => Some(n),
            Block::Recent => match self.recent_block(key) {
                Some(b) => if self.last_update() - b <= self.max_age() as int || self.last_update() < b {
                    Some(b)
                } else {
                    None
                },
                None => None,
            },
        }
    }

    /// The block of the cached entry that answers the request, if any.
    pub open spec fn hit(&self, key: u64, block: Block) -> Option<u64> {
        match self.resolved_block(key, block) {
            Some(b) => if self.entry(b, key) is Some {
                Some(b)
            } else {
                None
            },
            None => None,
        }
    }

    /// An empty cache whose last update was at `current_block`.
    pub fn new(config: &CacheConfig, current_block: u64) -> (r: Result<CacheState<V>, CacheConfigError>)
        ensures
            r is Err <==> config.number_of_blocks_to_cache == 0 || config.number_of_entries_to_auto_update == 0,
            r matches Ok(c) ==> {
                &&& c.wf()
                &&& forall|b: u64, k: u64| c.entry(b, k) is None
                &&& forall|k: u64| c.recent_block(k) is None
                &&& c.lru() == Seq::<u64>::empty()
                &&& c.lru_cap() == config.number_of_entries_to_auto_update
                &&& c.last_update() == current_block
                &&& c.max_age() == config.maximum_recent_block_age
                &&& c.blocks_to_cache() == config.number_of_blocks_to_cache
            },
    {
        if config.number_of_blocks_to_cache == 0 {
            return Err(CacheConfigError::ZeroBlocksToCache);
        }
        if config.number_of_entries_to_auto_update == 0 {
            return Err(CacheConfigError::ZeroEntriesToAutoUpdate);
        }
        Ok(CacheState {
            recently_used: lru_new(config.number_of_entries_to_auto_update),
            cached_most_recently_at_block: Vec::new(),
            entries: Vec::new(),
            last_update_block: current_block,
            maximum_recent_block_age: config.maximum_recent_block_age,
            number_of_blocks_to_cache: config.number_of_blocks_to_cache,
        })
    }

    /// The keys of the recently used entries, most recent first.
    pub fn keys_of_recently_used_entries(&self) -> (r: Vec<u64>)
        ensures
            r@ == self.lru(),
    {
        lru_key_order(&self.recently_used)
    }

    pub fn last_update_block(&self) -> (r: u64)
        ensures
            r == self.last_update(),
    {
        self.last_update_block
    }

    /// The values cached at `(block, key)`.
    pub fn values(&self, block: u64, key: u64) -> (r: Option<&Vec<V>>)
        ensures
            r is Some <==> self.entry(block, key) is Some,
            r matches Some(v) ==> v@ == self.entry(block, key).unwrap(),
    {
        match find_entry(&self.entries, block, key) {
            Some(i) => Some(&self.entries[i].values),
            None => None,
        }
    }
}

fn find_entry<V>(entries: &Vec<CacheEntry<V>>, block: u64, key: u64) -> (r: Option<usize>)
    ensures
        r is Some <==> lookup(entries@, block, key) is Some,
        r matches Some(i) ==> i < entries@.len() && entries@[i as int].block == block
            && entries@[i as int].key == key && lookup(entries@, block, key) == Some(entries@[i as int].values@)
            && forall|j: int| 0 <= j < i ==> !(entries@[j].block == block && entries@[j].key == key),
        r is None ==> forall|j: int| 0 <= j < entries@.len() ==> !(#[trigger] entries@[j].block == block && entries@[j].key == key),
{
    let mut i: usize = 0;
    assert(entries@.subrange(0, entries@.len() as int) =~= entries@);
    while i < entries.len()
        invariant
            0 <= i <= entries@.len(),
            lookup(entries@, block, key) == lookup(entries@.subrange(i as int, entries@.len() as int), block, key),
            forall|j: int| 0 <= j < i ==> !(entries@[j].block == block && entries@[j].key == key),
        decreases entries@.len() - i,
    {
        let ghost rest = entries@.subrange(i as int, entries@.len() as int);
        assert(rest.drop_first() =~= entries@.subrange(i + 1, entries@.len() as int));
        assert(rest[0] == entries@[i as int]);
        if entries[i].block == block && entries[i].key == key {
            return Some(i);
        }
        i = i + 1;
    }
    assert(entries@.subrange(i as int, entries@.len() as int).len() == 0);
    None
}

fn find_recent(recent: &Vec<(u64, u64)>, key: u64) -> (r: Option<usize>)
    ensures
        r is Some <==> lookup_recent(recent@, key) is Some,
        r matches Some(i) ==> i < recent@.len() && recent@[i as int].0 == key && lookup_recent(recent@, key)
            == Some(recent@[i as int].1) && forall|j: int| 0 <= j < i ==> recent@[j].0 != key,
        r is None ==> forall|j: int| 0 <= j < recent@.len() ==> (#[trigger] recent@[j]).0 != key,
{
    let mut i: usize = 0;
    assert(recent@.subrange(0, recent@.len() as int) =~= recent@);
    while i < recent.len()
        invariant
            0 <= i <= recent@.len(),
            lookup_recent(recent@, key) == lookup_recent(recent@.subrange(i as int, recent@.len() as int), key),
            forall|j: int| 0 <= j < i ==> recent@[j].0 != key,
        decreases recent@.len() - i,
    {
        let ghost rest = recent@.subrange(i as int, recent@.len() as int);
        assert(rest.drop_first() =~= recent@.subrange(i + 1, recent@.len() as int));
        assert(rest[0] == recent@[i as int]);
        if recent[i].0 == key {
            return Some(i);
        }
        i = i + 1;
    }
    assert(recent@.subrange(i as int, recent@.len() as int).len() == 0);
    None
}

/// Values among `vals` whose key is `key`, in order.
pub open spec fn values_with_key<V: CacheKey>(vals: Seq<V>, key: u64) -> Seq<V>
    decreases vals.len(),
{
    if vals.len() == 0 {
        Seq::empty()
    } else {
        let prev = values_with_key(vals.drop_last(), key);
        if vals.last().key_of() == key {
            prev.push(vals.last())
        } else {
            prev
        }
    }
}

/// The keys of `vals`, each once, in order of first appearance.
pub open spec fn distinct_keys<V: CacheKey>(vals: Seq<V>) -> Seq<u64>
    decreases vals.len(),
{
    if vals.len() == 0 {
        Seq::empty()
    } else {
        let prev = distinct_keys(vals.drop_last());
        if prev.contains(vals.last().key_of()) {
            prev
        } else {
            prev.push(vals.last().key_of())
        }
    }
}

/// `lru` after each of `keys` is used in turn.
pub open spec fn touched_all(lru: Seq<u64>, keys: Seq<u64>, capacity: nat) -> Seq<u64>
    decreases keys.len(),
{
    if keys.len() == 0 {
        lru
    } else {
        crate::lru::touched(touched_all(lru, keys.drop_last(), capacity), keys.last(), capacity)
    }
}

proof fn lemma_lookup_push<V>(s: Seq<CacheEntry<V>>, e: CacheEntry<V>, b: u64, k: u64)
    ensures
        lookup(s.push(e), b, k) == if lookup(s, b, k) is Some {
            lookup(s, b, k)
        } else if e.block == b && e.key == k {
            Some(e.values@)
        } else {
            None
        },
    decreases s.len(),
{
    if s.len() == 0 {
        assert(s.push(e)[0] == e);
        assert(s.push(e).drop_first() =~= Seq::<CacheEntry<V>>::empty());
        assert(lookup(Seq::<CacheEntry<V>>::empty(), b, k) is None);
    } else {
        assert(s.push(e)[0] == s[0]);
        assert(s.push(e).drop_first() =~= s.drop_first().push(e));
        lemma_lookup_push(s.drop_first(), e, b, k);
    }
}

/// Replacing the first entry for a pair keeps the answers for other pairs.
proof fn lemma_lookup_update<V>(s: Seq<CacheEntry<V>>, i: int, e: CacheEntry<V>, b: u64, k: u64)
    requires
        0 <= i < s.len(),
        e.block == s[i].block,
        e.key == s[i].key,
        lookup(s, e.block, e.key) == Some(s[i].values@),
        forall|j: int| 0 <= j < i ==> !(s[j].block == e.block && s[j].key == e.key),
    ensures
        lookup(s.update(i, e), b, k) == if b == e.block && k == e.key {
            Some(e.values@)
        } else {
            lookup(s, b, k)
        },
    decreases s.len(),
{
    if i > 0 {
        assert(s.update(i, e)[0] == s[0]);
        assert(s.update(i, e).drop_first() =~= s.drop_first().update(i - 1, e));
        assert forall|j: int| 0 <= j < i - 1 implies !(s.drop_first()[j].block == e.block && s.drop_first()[j].key == e.key) by {
            assert(s.drop_first()[j] == s[j + 1]);
        }
        lemma_lookup_update(s.drop_first(), i - 1, e, b, k);
    } else {
        assert(s.update(i, e)[0] == e);
        assert(s.update(i, e).drop_first() =~= s.drop_first());
    }
}

proof fn lemma_lookup_recent_push(s: Seq<(u64, u64)>, e: (u64, u64), k: u64)
    ensures
        lookup_recent(s.push(e), k) == if lookup_recent(s, k) is Some {
            lookup_recent(s, k)
        } else if e.0 == k {
            Some(e.1)
        } else {
            None
        },
    decreases s.len(),
{
    if s.len() == 0 {
        assert(s.push(e)[0] == e);
        assert(s.push(e).drop_first() =~= Seq::<(u64, u64)>::empty());
        assert(lookup_recent(Seq::<(u64, u64)>::empty(), k) is None);
    } else {
        assert(s.push(e)[0] == s[0]);
        assert(s.push(e).drop_first() =~= s.drop_first().push(e));
        lemma_lookup_recent_push(s.drop_first(), e, k);
    }
}

proof fn lemma_lookup_recent_update(s: Seq<(u64, u64)>, i: int, e: (u64, u64), k: u64)
    requires
        0 <= i < s.len(),
        e.0 == s[i].0,
        forall|j: int| 0 <= j < i ==> s[j].0 != e.0,
    ensures
        lookup_recent(s.update(i, e), k) == if k == e.0 {
            Some(e.1)
        } else {
            lookup_recent(s, k)
        },
    decreases s.len(),
{
    if i > 0 {
        assert(s.update(i, e)[0] == s[0]);
        assert(s.update(i, e).drop_first() =~= s.drop_first().update(i - 1, e));
        assert forall|j: int| 0 <= j < i - 1 implies s.drop_first()[j].0 != e.0 by {
            assert(s.drop_first()[j] == s[j + 1]);
        }
        lemma_lookup_recent_update(s.drop_first(), i - 1, e, k);
    } else {
        assert(s.update(i, e)[0] == e);
        assert(s.update(i, e).drop_first() =~= s.drop_first());
    }
}

impl<V: CacheKey> CacheState<V> {
    /// Everything but the recently used keys is as in `other`.
    pub open spec fn same_data(&self, other: &Self) -> bool {
        &&& forall|b: u64, k: u64| #[trigger] self.entry(b, k) == other.entry(b, k)
        &&& forall|k: u64| #[trigger] self.recent_block(k) == other.recent_block(k)
        &&& self.last_update() == other.last_update()
        &&& self.max_age() == other.max_age()
        &&& self.blocks_to_cache() == other.blocks_to_cache()
        &&& self.lru_cap() == other.lru_cap()
    }

    /// Whether a request for `key` at `block` uses a cached entry that holds
    /// values, which marks the key as recently used.
    pub open spec fn marks_used(&self, key: u64, block: Block) -> bool {
        match self.hit(key, block) {
            Some(b) => self.entry(b, key).unwrap().len() > 0,
            None => false,
        }
    }

    /// The recently used keys after requests for each of `keys` in turn.
    pub open spec fn lru_after_requests(&self, keys: Seq<u64>, block: Block) -> Seq<u64>
        decreases keys.len(),
    {
        if keys.len() == 0 {
            self.lru()
        } else {
            let prev = self.lru_after_requests(keys.drop_last(), block);
            if self.marks_used(keys.last(), block) {
                crate::lru::touched(prev, keys.last(), self.lru_cap())
            } else {
                prev
            }
        }
    }

    /// The cached `(block, key)` pairs that answer requests for `keys`, in
    /// order.
    pub open spec fn hits_of(&self, keys: Seq<u64>, block: Block) -> Seq<(u64, u64)>
        decreases keys.len(),
    {
        if keys.len() == 0 {
            Seq::empty()
        } else {
            let prev = self.hits_of(keys.drop_last(), block);
            match self.hit(keys.last(), block) {
                Some(b) => prev.push((b, keys.last())),
                None => prev,
            }
        }
    }

    /// Looks `key` up at `block` and returns the block of the cached entry
    /// that answers; a key whose entry holds values becomes the most recently
    /// used.
    pub fn get(&mut self, key: u64, block: Block) -> (r: Option<u64>)
        ensures
            r == old(self).hit(key, block),
            final(self).same_data(old(self)),
            final(self).wf() == old(self).wf(),
            final(self).lru() == if old(self).marks_used(key, block) {
                crate::lru::touched(old(self).lru(), key, old(self).lru_cap())
            } else {
                old(self).lru()
            },
    {
        let resolved = match block {
            Block::Number(n) => Some(n),
            Block::Recent => match find_recent(&self.cached_most_recently_at_block, key) {
                Some(i) => {
                    let b = self.cached_most_recently_at_block[i].1;
                    if self.last_update_block < b || self.last_update_block - b <= self.maximum_recent_block_age {
                        Some(b)
                    } else {
                        None
                    }
                },
                None => None,
            },
        };
        let b = match resolved {
            Some(b) => b,
            None => return None,
        };
        match find_entry(&self.entries, b, key) {
            Some(i) => {
                if self.entries[i].values.len() > 0 {
                    lru_touch(&mut self.recently_used, key);
                }
                Some(b)
            },
            None => None,
        }
    }

    /// Decides what a fetch of `keys` at `block` reads from the cache and
    /// what it fetches: keys whose request is answered are hits, the others
    /// (each once) are fetched at the requested block, or for `Recent` at the
    /// block of the last update.
    pub fn begin_fetch(&mut self, keys: &Vec<u64>, block: Block) -> (r: FetchPlan)
        ensures
            r.hits@ == old(self).hits_of(keys@, block),
            forall|k: u64| r.misses@.contains(k) <==> keys@.contains(k) && old(self).hit(k, block) is None,
            r.misses@.no_duplicates(),
            r.miss_block == match block {
                Block::Number(n) => n,
                Block::Recent => old(self).last_update(),
            },
            final(self).same_data(old(self)),
            final(self).wf() == old(self).wf(),
            final(self).lru() == old(self).lru_after_requests(keys@, block),
    {
        let ghost start = *self;
        let mut hits: Vec<(u64, u64)> = Vec::new();
        let mut misses: Vec<u64> = Vec::new();
        let mut i: usize = 0;
        while i < keys.len()
            invariant
                0 <= i <= keys@.len(),
                self.same_data(&start),
                self.wf() == start.wf(),
                self.lru() == start.lru_after_requests(keys@.subrange(0, i as int), block),
                hits@ == start.hits_of(keys@.subrange(0, i as int), block),
                misses@.no_duplicates(),
                forall|k: u64| misses@.contains(k) <==> keys@.subrange(0, i as int).contains(k) && start.hit(k, block) is None,
            decreases keys@.len() - i,
        {
            let key = keys[i];
            let ghost before = *self;
            let ghost prefix = keys@.subrange(0, i as int);
            let ghost next = keys@.subrange(0, i + 1);
            assert(next.drop_last() =~= prefix);
            assert(next.last() == key);
            assert(before.hit(key, block) == start.hit(key, block));
            let ghost old_misses = misses@;
            let got = self.get(key, block);
            let ghost pushed = got is None && !old_misses.contains(key);
            match got {
                Some(b) => hits.push((b, key)),
                None => {
                    if !contains_key(&misses, key) {
                        misses.push(key);
                        assert(misses@ == old_misses.push(key));
                        assert forall|k: u64| misses@.contains(k) <==> old_misses.contains(k) || k == key by {
                            if misses@.contains(k) {
                                let j = choose|j: int| 0 <= j < misses@.len() && misses@[j] == k;
                                if j < old_misses.len() {
                                    assert(old_misses[j] == k);
                                }
                            }
                            if old_misses.contains(k) {
                                let j = choose|j: int| 0 <= j < old_misses.len() && old_misses[j] == k;
                                assert(misses@[j] == k);
                            }
                            if k == key {
                                assert(misses@[old_misses.len() as int] == k);
                            }
                        }
                    }
                },
            }
            assert forall|k: u64| next.contains(k) <==> prefix.contains(k) || k == key by {
                if next.contains(k) && !prefix.contains(k) {
                    let j = choose|j: int| 0 <= j < next.len() && next[j] == k;
                    if j < i {
                        assert(prefix[j] == k);
                    }
                }
                if prefix.contains(k) {
                    let j = choose|j: int| 0 <= j < prefix.len() && prefix[j] == k;
                    assert(next[j] == k);
                }
                if k == key {
                    assert(next[i as int] == k);
                }
            }
            assert(pushed ==> forall|k: u64| misses@.contains(k) <==> old_misses.contains(k) || k == key);
            assert(!pushed ==> misses@ == old_misses);
            assert(got == start.hit(key, block));
            assert forall|k: u64| misses@.contains(k) <==> next.contains(k) && start.hit(k, block) is None by {
                assert(old_misses.contains(k) <==> prefix.contains(k) && start.hit(k, block) is None);
                if k == key {
                    if got is None {
                        assert(misses@.contains(k));
                    }
                }
            }
            i = i + 1;
        }
        assert(keys@.subrange(0, keys@.len() as int) =~= keys@);
        let miss_block = match block {
            Block::Number(n) => n,
            Block::Recent => self.last_update_block,
        };
        FetchPlan { hits, misses, miss_block }
    }
}

pub fn contains_key(keys: &Vec<u64>, key: u64) -> (r: bool)
    ensures
        r == keys@.contains(key),
{
    let mut i: usize = 0;
    while i < keys.len()
        invariant
            0 <= i <= keys@.len(),
            forall|j: int| 0 <= j < i ==> keys@[j] != key,
        decreases keys@.len() - i,
    {
        if keys[i] == key {
            return true;
        }
        i = i + 1;
    }
    false
}

/// The entries kept when blocks before `oldest` leave.
pub open spec fn kept_entries<V>(s: Seq<CacheEntry<V>>, oldest: u64) -> Seq<CacheEntry<V>>
    decreases s.len(),
{
    if s.len() == 0 {
        s
    } else {
        let prev = kept_entries(s.drop_last(), oldest);
        if s.last().block >= oldest {
            prev.push(s.last())
        } else {
            prev
        }
    }
}

/// The records of recent blocks kept when blocks before `oldest` leave.
pub open spec fn kept_records(s: Seq<(u64, u64)>, oldest: u64) -> Seq<(u64, u64)>
    decreases s.len(),
{
    if s.len() == 0 {
        s
    } else {
        let prev = kept_records(s.drop_last(), oldest);
        if s.last().1 >= oldest {
            prev.push(s.last())
        } else {
            prev
        }
    }
}

proof fn lemma_lookup_recent_none(s: Seq<(u64, u64)>, k: u64)
    requires
        forall|j: int| 0 <= j < s.len() ==> (#[trigger] s[j]).0 != k,
    ensures
        lookup_recent(s, k) is None,
    decreases s.len(),
{
    if s.len() > 0 {
        assert forall|j: int| 0 <= j < s.len() - 1 implies (#[trigger] s.drop_first()[j]).0 != k by {
            assert(s.drop_first()[j] == s[j + 1]);
        }
        lemma_lookup_recent_none(s.drop_first(), k);
    }
}

proof fn lemma_kept_records(s: Seq<(u64, u64)>, oldest: u64)
    requires
        records_unique(s),
    ensures
        records_unique(kept_records(s, oldest)),
        forall|x: (u64, u64)| kept_records(s, oldest).contains(x) ==> s.contains(x),
        forall|k: u64| #[trigger] lookup_recent(kept_records(s, oldest), k) == match lookup_recent(s, k) {
            Some(b) => if b >= oldest {
                Some(b)
            } else {
                None
            },
            None => None,
        },
    decreases s.len(),
{
    if s.len() > 0 {
        let init = s.drop_last();
        let e = s.last();
        assert(init.push(e) =~= s);
        assert(records_unique(init)) by {
            assert forall|a: int, b: int| #![trigger init[a], init[b]] 0 <= a < b < init.len() implies init[a].0 != init[b].0 by {
                assert(s[a] == init[a] && s[b] == init[b]);
            }
        }
        lemma_kept_records(init, oldest);
        let ki = kept_records(init, oldest);
        assert forall|j: int| 0 <= j < init.len() implies (#[trigger] init[j]).0 != e.0 by {
            assert(s[j] == init[j]);
            assert(s[s.len() - 1] == e);
        }
        lemma_lookup_recent_none(init, e.0);
        assert forall|k: u64| #[trigger] lookup_recent(s, k) == if k == e.0 {
            Some(e.1)
        } else {
            lookup_recent(init, k)
        } by {
            lemma_lookup_recent_push(init, e, k);
        }
        if e.1 >= oldest {
            assert(kept_records(s, oldest) == ki.push(e));
            let kk = ki.push(e);
            assert(records_unique(kk)) by {
                assert forall|a: int, b: int| #![trigger kk[a], kk[b]] 0 <= a < b < kk.len() implies kk[a].0 != kk[b].0 by {
                    assert(kk[a] == ki[a]);
                    if b == kk.len() - 1 {
                        assert(ki.contains(ki[a]));
                        assert(init.contains(ki[a]));
                        let m = choose|m: int| 0 <= m < init.len() && init[m] == ki[a];
                        assert(init[m].0 != e.0);
                    } else {
                        assert(kk[b] == ki[b]);
                    }
                }
            }
            assert forall|x: (u64, u64)| kk.contains(x) implies s.contains(x) by {
                let m = choose|m: int| 0 <= m < kk.len() && kk[m] == x;
                if m == kk.len() - 1 {
                    assert(s[s.len() - 1] == x);
                } else {
                    assert(kk[m] == ki[m]);
                    assert(ki.contains(x));
                    assert(init.contains(x));
                    let q = choose|q: int| 0 <= q < init.len() && init[q] == x;
                    assert(s[q] == x);
                }
            }
            assert forall|k: u64| #[trigger] lookup_recent(kk, k) == match lookup_recent(s, k) {
                Some(b) => if b >= oldest {
                    Some(b)
                } else {
                    None
                },
                None => None,
            } by {
                lemma_lookup_recent_push(ki, e, k);
            }
        } else {
            assert(kept_records(s, oldest) == ki);
            assert forall|x: (u64, u64)| ki.contains(x) implies s.contains(x) by {
                assert(init.contains(x));
                let q = choose|q: int| 0 <= q < init.len() && init[q] == x;
                assert(s[q] == x);
            }
        }
    } else {
        assert forall|k: u64| #[trigger] lookup_recent(kept_records(s, oldest), k) is None by {}
    }
}

proof fn lemma_kept_entries_unique<V>(s: Seq<CacheEntry<V>>, oldest: u64)
    requires
        entries_unique(s),
    ensures
        entries_unique(kept_entries(s, oldest)),
        forall|x: CacheEntry<V>| kept_entries(s, oldest).contains(x) ==> s.contains(x),
    decreases s.len(),
{
    if s.len() > 0 {
        let init = s.drop_last();
        let e = s.last();
        assert(entries_unique(init)) by {
            assert forall|a: int, b: int| #![trigger init[a], init[b]] 0 <= a < b < init.len() implies !(init[a].block == init[b].block && init[a].key == init[b].key) by {
                assert(s[a] == init[a] && s[b] == init[b]);
            }
        }
        lemma_kept_entries_unique(init, oldest);
        let ki = kept_entries(init, oldest);
        if e.block >= oldest {
            let kk = ki.push(e);
            assert(entries_unique(kk)) by {
                assert forall|a: int, b: int| #![trigger kk[a], kk[b]] 0 <= a < b < kk.len() implies !(kk[a].block == kk[b].block && kk[a].key == kk[b].key) by {
                    assert(kk[a] == ki[a]);
                    if b == kk.len() - 1 {
                        assert(ki.contains(ki[a]));
                        assert(init.contains(ki[a]));
                        let m = choose|m: int| 0 <= m < init.len() && init[m] == ki[a];
                        assert(s[m] == init[m] && s[s.len() - 1] == e);
                        assert(!(s[m].block == s[s.len() - 1].block && s[m].key == s[s.len() - 1].key));
                    } else {
                        assert(kk[b] == ki[b]);
                    }
                }
            }
            assert forall|x: CacheEntry<V>| kk.contains(x) implies s.contains(x) by {
                let m = choose|m: int| 0 <= m < kk.len() && kk[m] == x;
                if m == kk.len() - 1 {
                    assert(s[s.len() - 1] == x);
                } else {
                    assert(kk[m] == ki[m]);
                    assert(ki.contains(x));
                    assert(init.contains(x));
                    let q = choose|q: int| 0 <= q < init.len() && init[q] == x;
                    assert(s[q] == x);
                }
            }
        } else {
            assert forall|x: CacheEntry<V>| ki.contains(x) implies s.contains(x) by {
                assert(init.contains(x));
                let q = choose|q: int| 0 <= q < init.len() && init[q] == x;
                assert(s[q] == x);
            }
        }
    }
}

proof fn lemma_kept_entries_lookup<V>(s: Seq<CacheEntry<V>>, oldest: u64, b: u64, k: u64)
    ensures
        lookup(kept_entries(s, oldest), b, k) == if b >= oldest {
            lookup(s, b, k)
        } else {
            None
        },
    decreases s.len(),
{
    if s.len() == 0 {
        assert(lookup(s, b, k) is None);
    } else {
        let init = s.drop_last();
        lemma_kept_entries_lookup(init, oldest, b, k);
        assert(init.push(s.last()) =~= s);
        lemma_lookup_push(init, s.last(), b, k);
        if s.last().block >= oldest {
            lemma_lookup_push(kept_entries(init, oldest), s.last(), b, k);
        }
    }
}

impl<V: CacheKey> CacheState<V> {
    /// The records of the blocks at which keys were cached most recently.
    pub closed spec fn records(&self) -> Seq<(u64, u64)> {
        self.cached_most_recently_at_block@
    }

    /// The values cached at `(b, k)` after `values`, fetched at `block` for
    /// `keys`, are inserted: each key of `keys` gets the values with its key,
    /// possibly none.
    pub open spec fn entry_after_insert(&self, block: u64, keys: Seq<u64>, values: Seq<V>, b: u64, k: u64) -> Option<Seq<V>> {
        if b == block && keys.contains(k) {
            Some(values_with_key(values, k))
        } else {
            self.entry(b, k)
        }
    }

    /// The block at which `k` was cached most recently after an insert at
    /// `block` for `keys`: never earlier than before.
    pub open spec fn recent_after_insert(&self, block: u64, keys: Seq<u64>, k: u64) -> Option<u64> {
        if keys.contains(k) {
            match self.recent_block(k) {
                Some(r) => Some(if r > block { r } else { block }),
                None => Some(block),
            }
        } else {
            self.recent_block(k)
        }
    }

    /// Inserts `values` fetched at `block` for `keys`. A value whose key is
    /// not among `keys` was not asked for and is dropped.
    fn insert(&mut self, block: u64, keys: &Vec<u64>, values: Vec<V>)
        requires
            old(self).wf(),
        ensures
            final(self).wf(),
            forall|b: u64, k: u64| #[trigger] final(self).entry(b, k) == old(self).entry_after_insert(block, keys@, values@, b, k),
            forall|k: u64| #[trigger] final(self).recent_block(k) == old(self).recent_after_insert(block, keys@, k),
            final(self).lru() == old(self).lru(),
            final(self).lru_cap() == old(self).lru_cap(),
            final(self).last_update() == old(self).last_update(),
            final(self).max_age() == old(self).max_age(),
            final(self).blocks_to_cache() == old(self).blocks_to_cache(),
    {
        let ghost start = *self;
        let mut j: usize = 0;
        while j < keys.len()
            invariant
                0 <= j <= keys@.len(),
                forall|b: u64, k: u64| #[trigger] self.entry(b, k) == if b == block && keys@.subrange(0, j as int).contains(k) {
                    Some(Seq::<V>::empty())
                } else {
                    start.entry(b, k)
                },
                forall|k: u64| #[trigger] self.recent_block(k) == start.recent_after_insert(block, keys@.subrange(0, j as int), k),
                self.wf(),
                self.recently_used == start.recently_used,
                self.last_update_block == start.last_update_block,
                self.maximum_recent_block_age == start.maximum_recent_block_age,
                self.number_of_blocks_to_cache == start.number_of_blocks_to_cache,
            decreases keys@.len() - j,
        {
            let key = keys[j];
            let ghost prefix = keys@.subrange(0, j as int);
            let ghost next = keys@.subrange(0, j + 1);
            assert forall|k: u64| next.contains(k) <==> prefix.contains(k) || k == key by {
                if next.contains(k) && !prefix.contains(k) {
                    let i = choose|i: int| 0 <= i < next.len() && next[i] == k;
                    if i < j {
                        assert(prefix[i] == k);
                    }
                }
                if prefix.contains(k) {
                    let i = choose|i: int| 0 <= i < prefix.len() && prefix[i] == k;
                    assert(next[i] == k);
                }
                if k == key {
                    assert(next[j as int] == k);
                }
            }
            let ghost pre = *self;
            let ghost records0 = self.cached_most_recently_at_block@;
            match find_recent(&self.cached_most_recently_at_block, key) {
                Some(i) => {
                    let b0 = self.cached_most_recently_at_block[i].1;
                    let newest = if b0 > block { b0 } else { block };
                    self.cached_most_recently_at_block.set(i, (key, newest));
                    proof {
                        let r = self.cached_most_recently_at_block@;
                        assert forall|a: int| 0 <= a < r.len() implies (#[trigger] r[a]).0 == records0[a].0 by {}
                        assert(records_unique(r)) by {
                            assert forall|a: int, b: int| #![trigger r[a], r[b]] 0 <= a < b < r.len() implies r[a].0 != r[b].0 by {
                                assert(records0[a].0 != records0[b].0);
                            }
                        }
                        assert forall|k: u64| #[trigger] lookup_recent(self.cached_most_recently_at_block@, k) == if k == key {
                            Some(newest)
                        } else {
                            lookup_recent(records0, k)
                        } by {
                            lemma_lookup_recent_update(records0, i as int, (key, newest), k);
                        }
                    }
                },
                None => {
                    self.cached_most_recently_at_block.push((key, block));
                    proof {
                        assert(self.cached_most_recently_at_block@ == records0.push((key, block)));
                        let r = self.cached_most_recently_at_block@;
                        assert(records_unique(r)) by {
                            assert forall|a: int, b: int| #![trigger r[a], r[b]] 0 <= a < b < r.len() implies r[a].0 != r[b].0 by {
                                if b == r.len() - 1 {
                                    assert(records0[a].0 != key);
                                } else {
                                    assert(records0[a].0 != records0[b].0);
                                }
                            }
                        }
                        assert forall|k: u64| #[trigger] lookup_recent(self.cached_most_recently_at_block@, k) == if k == key {
                            Some(block)
                        } else {
                            lookup_recent(records0, k)
                        } by {
                            lemma_lookup_recent_push(records0, (key, block), k);
                        }
                    }
                },
            }
            let ghost entries0 = self.entries@;
            match find_entry(&self.entries, block, key) {
                Some(i) => {
                    self.entries.set(i, CacheEntry { block, key, values: Vec::new() });
                    proof {
                        let e = self.entries@;
                        assert forall|a: int| 0 <= a < e.len() implies (#[trigger] e[a]).block == entries0[a].block && e[a].key == entries0[a].key by {}
                        assert(entries_unique(e)) by {
                            assert forall|a: int, b: int| #![trigger e[a], e[b]] 0 <= a < b < e.len() implies !(e[a].block == e[b].block && e[a].key == e[b].key) by {
                                assert(!(entries0[a].block == entries0[b].block && entries0[a].key == entries0[b].key));
                            }
                        }
                        assert forall|b: u64, k: u64| #[trigger] lookup(self.entries@, b, k) == if b == block && k == key {
                            Some(Seq::<V>::empty())
                        } else {
                            lookup(entries0, b, k)
                        } by {
                            lemma_lookup_update(entries0, i as int, self.entries@[i as int], b, k);
                        }
                    }
                },
                None => {
                    self.entries.push(CacheEntry { block, key, values: Vec::new() });
                    proof {
                        let e = self.entries@;
                        assert(entries_unique(e)) by {
                            assert forall|a: int, b: int| #![trigger e[a], e[b]] 0 <= a < b < e.len() implies !(e[a].block == e[b].block && e[a].key == e[b].key) by {
                                assert(e[a] == entries0[a]);
                                if b == e.len() - 1 {
                                    assert(!(entries0[a].block == block && entries0[a].key == key));
                                } else {
                                    assert(e[b] == entries0[b]);
                                    assert(!(entries0[a].block == entries0[b].block && entries0[a].key == entries0[b].key));
                                }
                            }
                        }
                        assert forall|b: u64, k: u64| #[trigger] lookup(self.entries@, b, k) == if b == block && k == key {
                            Some(Seq::<V>::empty())
                        } else {
                            lookup(entries0, b, k)
                        } by {
                            assert(self.entries@ == entries0.push(self.entries@.last()));
                            lemma_lookup_push(entries0, self.entries@.last(), b, k);
                        }
                    }
                },
            }
            proof {
                assert forall|b: u64, k: u64| #[trigger] self.entry(b, k) == if b == block && next.contains(k) {
                    Some(Seq::<V>::empty())
                } else {
                    start.entry(b, k)
                } by {
                    assert(pre.entry(b, k) == if b == block && prefix.contains(k) {
                        Some(Seq::<V>::empty())
                    } else {
                        start.entry(b, k)
                    });
                    assert(lookup(self.entries@, b, k) == if b == block && k == key {
                        Some(Seq::<V>::empty())
                    } else {
                        lookup(entries0, b, k)
                    });
                }
                assert forall|k: u64| #[trigger] self.recent_block(k) == start.recent_after_insert(block, next, k) by {
                    assert(pre.recent_block(k) == start.recent_after_insert(block, prefix, k));
                    assert(pre.recent_block(key) == start.recent_after_insert(block, prefix, key));
                    assert(lookup_recent(records0, key) == pre.recent_block(key));
                }
            }
            j = j + 1;
        }
        assert(keys@.subrange(0, keys@.len() as int) =~= keys@);
        let ghost mid = *self;
        assert forall|k: u64| #[trigger] mid.recent_block(k) == start.recent_after_insert(block, keys@, k) by {
            assert(mid.recent_block(k) == start.recent_after_insert(block, keys@.subrange(0, keys@.len() as int), k));
        }
        let mut vals = values;
        let ghost all = vals@;
        let n = vals.len();
        let mut done: usize = 0;
        assert(all.subrange(0, 0) =~= Seq::<V>::empty());
        while vals.len() > 0
            invariant
                0 <= done <= n,
                n == all.len(),
                vals@ == all.subrange(done as int, n as int),
                forall|b: u64, k: u64| #[trigger] self.entry(b, k) == if b == block && keys@.contains(k) {
                    Some(values_with_key(all.subrange(0, done as int), k))
                } else {
                    start.entry(b, k)
                },
                self.cached_most_recently_at_block@ == mid.cached_most_recently_at_block@,
                self.wf(),
                self.recently_used == start.recently_used,
                self.last_update_block == start.last_update_block,
                self.maximum_recent_block_age == start.maximum_recent_block_age,
                self.number_of_blocks_to_cache == start.number_of_blocks_to_cache,
            decreases n - done,
        {
            let v = vals.remove(0);
            let ghost before = all.subrange(0, done as int);
            let ghost after = all.subrange(0, done + 1);
            assert(after.drop_last() =~= before);
            assert(after.last() == v);
            let key = v.cache_key();
            let ghost pre = *self;
            if contains_key(keys, key) {
                assert(pre.entry(block, key) is Some);
                let i = find_entry(&self.entries, block, key).unwrap();
                let ghost entries0 = self.entries@;
                let mut e = CacheEntry { block, key, values: Vec::new() };
                self.entries.set_and_swap(i, &mut e);
                e.values.push(v);
                let ghost e2 = e;
                self.entries.set(i, e);
                proof {
                    assert(self.entries@ == entries0.update(i as int, e2));
                    let e = self.entries@;
                    assert forall|a: int| 0 <= a < e.len() implies (#[trigger] e[a]).block == entries0[a].block && e[a].key == entries0[a].key by {}
                    assert(entries_unique(e)) by {
                        assert forall|a: int, b: int| #![trigger e[a], e[b]] 0 <= a < b < e.len() implies !(e[a].block == e[b].block && e[a].key == e[b].key) by {
                            assert(!(entries0[a].block == entries0[b].block && entries0[a].key == entries0[b].key));
                        }
                    }
                    assert forall|b: u64, k: u64| #[trigger] lookup(self.entries@, b, k) == if b == block && k == key {
                        Some(e2.values@)
                    } else {
                        lookup(entries0, b, k)
                    } by {
                        lemma_lookup_update(entries0, i as int, e2, b, k);
                    }
                }
            }
            proof {
                assert forall|b: u64, k: u64| #[trigger] self.entry(b, k) == if b == block && keys@.contains(k) {
                    Some(values_with_key(after, k))
                } else {
                    start.entry(b, k)
                } by {
                    assert(pre.entry(b, k) == if b == block && keys@.contains(k) {
                        Some(values_with_key(before, k))
                    } else {
                        start.entry(b, k)
                    });
                    assert(pre.entry(block, key) == if keys@.contains(key) {
                        Some(values_with_key(before, key))
                    } else {
                        start.entry(block, key)
                    });
                }
            }
            done = done + 1;
        }
        assert(all.subrange(0, n as int) =~= all);
        assert forall|k: u64| #[trigger] self.recent_block(k) == start.recent_after_insert(block, keys@, k) by {
            assert(mid.recent_block(k) == start.recent_after_insert(block, keys@, k));
        }
        assert forall|b: u64, k: u64| #[trigger] self.entry(b, k) == start.entry_after_insert(block, keys@, all, b, k) by {
            assert(self.entry(b, k) == if b == block && keys@.contains(k) {
                Some(values_with_key(all.subrange(0, n as int), k))
            } else {
                start.entry(b, k)
            });
        }
    }
}

impl<V: CacheKey> CacheState<V> {
    /// Drops every entry, and every record of a recent block, before
    /// `oldest_to_keep`.
    fn remove_cached_blocks_older_than(&mut self, oldest_to_keep: u64)
        requires
            old(self).wf(),
        ensures
            final(self).wf(),
            forall|k: u64| #[trigger] final(self).recent_block(k) == match old(self).recent_block(k) {
                Some(b) => if b >= oldest_to_keep {
                    Some(b)
                } else {
                    None
                },
                None => None,
            },
            forall|b: u64, k: u64| #[trigger] final(self).entry(b, k) == if b >= oldest_to_keep {
                old(self).entry(b, k)
            } else {
                None
            },
            final(self).records() == kept_records(old(self).records(), oldest_to_keep),
            final(self).lru() == old(self).lru(),
            final(self).lru_cap() == old(self).lru_cap(),
            final(self).last_update() == old(self).last_update(),
            final(self).max_age() == old(self).max_age(),
            final(self).blocks_to_cache() == old(self).blocks_to_cache(),
    {
        let ghost start = *self;
        let mut old_entries = self.entries.split_off(0);
        let ghost all = old_entries@;
        assert(all =~= start.entries@);
        let n = old_entries.len();
        let mut done: usize = 0;
        assert(all.subrange(0, 0) =~= Seq::<CacheEntry<V>>::empty());
        while old_entries.len() > 0
            invariant
                0 <= done <= n,
                n == all.len(),
                old_entries@ == all.subrange(done as int, n as int),
                self.entries@ == kept_entries(all.subrange(0, done as int), oldest_to_keep),
                self.cached_most_recently_at_block@ == start.cached_most_recently_at_block@,
                self.recently_used == start.recently_used,
                self.last_update_block == start.last_update_block,
                self.maximum_recent_block_age == start.maximum_recent_block_age,
                self.number_of_blocks_to_cache == start.number_of_blocks_to_cache,
            decreases n - done,
        {
            let e = old_entries.remove(0);
            let ghost after = all.subrange(0, done + 1);
            assert(after.drop_last() =~= all.subrange(0, done as int));
            assert(after.last() == e);
            if e.block >= oldest_to_keep {
                self.entries.push(e);
            }
            done = done + 1;
        }
        assert(done == n);
        assert(all.subrange(0, n as int) =~= all);
        let mut old_records = self.cached_most_recently_at_block.split_off(0);
        let ghost records = old_records@;
        assert(records =~= start.cached_most_recently_at_block@);
        let m = old_records.len();
        let mut done2: usize = 0;
        assert(records.subrange(0, 0) =~= Seq::<(u64, u64)>::empty());
        while old_records.len() > 0
            invariant
                0 <= done2 <= m,
                m == records.len(),
                old_records@ == records.subrange(done2 as int, m as int),
                self.cached_most_recently_at_block@ == kept_records(records.subrange(0, done2 as int), oldest_to_keep),
                self.entries@ == kept_entries(all, oldest_to_keep),
                self.recently_used == start.recently_used,
                self.last_update_block == start.last_update_block,
                self.maximum_recent_block_age == start.maximum_recent_block_age,
                self.number_of_blocks_to_cache == start.number_of_blocks_to_cache,
            decreases m - done2,
        {
            let r = old_records.remove(0);
            let ghost after = records.subrange(0, done2 + 1);
            assert(after.drop_last() =~= records.subrange(0, done2 as int));
            assert(after.last() == r);
            if r.1 >= oldest_to_keep {
                self.cached_most_recently_at_block.push(r);
            }
            done2 = done2 + 1;
        }
        assert(done2 == m);
        assert(records.subrange(0, m as int) =~= records);
        proof {
            assert forall|b: u64, k: u64| #[trigger] lookup(self.entries@, b, k) == if b >= oldest_to_keep {
                lookup(all, b, k)
            } else {
                None
            } by {
                lemma_kept_entries_lookup(all, oldest_to_keep, b, k);
            }
            lemma_kept_entries_unique(all, oldest_to_keep);
            lemma_kept_records(records, oldest_to_keep);
        }
    }

    /// Takes in the values fetched at `block` for the keys `chunk`; the keys
    /// of the values, each once in order of first appearance, become the most
    /// recently used.
    pub fn complete_fetch(&mut self, block: u64, chunk: &Vec<u64>, fetched: Vec<V>)
        requires
            old(self).wf(),
        ensures
            final(self).wf(),
            forall|b: u64, k: u64| #[trigger] final(self).entry(b, k) == old(self).entry_after_insert(block, chunk@, fetched@, b, k),
            forall|k: u64| #[trigger] final(self).recent_block(k) == old(self).recent_after_insert(block, chunk@, k),
            final(self).lru() == touched_all(old(self).lru(), distinct_keys(fetched@), old(self).lru_cap()),
            final(self).lru_cap() == old(self).lru_cap(),
            final(self).last_update() == old(self).last_update(),
            final(self).max_age() == old(self).max_age(),
            final(self).blocks_to_cache() == old(self).blocks_to_cache(),
    {
        let found = found_keys(&fetched);
        let ghost start = *self;
        self.insert(block, chunk, fetched);
        let mut i: usize = 0;
        assert(found@.subrange(0, 0) =~= Seq::<u64>::empty());
        while i < found.len()
            invariant
                self.wf(),
                0 <= i <= found@.len(),
                forall|b: u64, k: u64| #[trigger] self.entry(b, k) == start.entry_after_insert(block, chunk@, fetched@, b, k),
                forall|k: u64| #[trigger] self.recent_block(k) == start.recent_after_insert(block, chunk@, k),
                self.lru() == touched_all(start.lru(), found@.subrange(0, i as int), start.lru_cap()),
                self.lru_cap() == start.lru_cap(),
                self.last_update() == start.last_update(),
                self.max_age() == start.max_age(),
                self.blocks_to_cache() == start.blocks_to_cache(),
            decreases found@.len() - i,
        {
            let ghost next = found@.subrange(0, i + 1);
            assert(next.drop_last() =~= found@.subrange(0, i as int));
            let ghost pre = *self;
            lru_touch(&mut self.recently_used, found[i]);
            assert forall|b: u64, k: u64| #[trigger] self.entry(b, k) == start.entry_after_insert(block, chunk@, fetched@, b, k) by {
                assert(pre.entry(b, k) == start.entry_after_insert(block, chunk@, fetched@, b, k));
            }
            assert forall|k: u64| #[trigger] self.recent_block(k) == start.recent_after_insert(block, chunk@, k) by {
                assert(pre.recent_block(k) == start.recent_after_insert(block, chunk@, k));
            }
            i = i + 1;
        }
        assert(found@.subrange(0, found@.len() as int) =~= found@);
    }

    /// Takes in the values fetched at `new_block` for the recently used
    /// `keys`, drops blocks that are `number_of_blocks_to_cache` or more
    /// blocks older than `new_block`, and records the update.
    pub fn complete_update(&mut self, new_block: u64, keys: &Vec<u64>, values: Vec<V>)
        requires
            old(self).wf(),
        ensures
            final(self).wf(),
            forall|k: u64| #[trigger] final(self).recent_block(k) == match old(self).recent_after_insert(new_block, keys@, k) {
                Some(b) => if b >= oldest_to_keep(new_block, old(self).blocks_to_cache()) {
                    Some(b)
                } else {
                    None
                },
                None => None,
            },
            forall|b: u64, k: u64| b < oldest_to_keep(new_block, old(self).blocks_to_cache()) ==> #[trigger] final(self).entry(b, k) is None,
            forall|b: u64, k: u64| #[trigger] final(self).entry(b, k) == if b >= oldest_to_keep(new_block, old(self).blocks_to_cache()) {
                old(self).entry_after_insert(new_block, keys@, values@, b, k)
            } else {
                None
            },
            final(self).lru() == old(self).lru(),
            final(self).lru_cap() == old(self).lru_cap(),
            final(self).last_update() == if new_block > old(self).last_update() {
                new_block
            } else {
                old(self).last_update()
            },
            final(self).max_age() == old(self).max_age(),
            final(self).blocks_to_cache() == old(self).blocks_to_cache(),
    {
        let ghost start = *self;
        self.insert(new_block, keys, values);
        let ghost mid = *self;
        let keep = if self.number_of_blocks_to_cache == 0 {
            new_block
        } else if new_block >= self.number_of_blocks_to_cache - 1 {
            new_block - (self.number_of_blocks_to_cache - 1)
        } else {
            0
        };
        self.remove_cached_blocks_older_than(keep);
        let ghost removed = *self;
        assert(keep == oldest_to_keep(new_block, start.blocks_to_cache()));
        if new_block > self.last_update_block {
            self.last_update_block = new_block;
        }
        assert forall|b: u64, k: u64| #[trigger] self.entry(b, k) == if b >= oldest_to_keep(new_block, start.blocks_to_cache()) {
            start.entry_after_insert(new_block, keys@, values@, b, k)
        } else {
            None
        } by {
            assert(mid.entry(b, k) == start.entry_after_insert(new_block, keys@, values@, b, k));
            assert(removed.entry(b, k) == if b >= keep {
                mid.entry(b, k)
            } else {
                None
            });
        }
        assert forall|k: u64| #[trigger] self.recent_block(k) == match start.recent_after_insert(new_block, keys@, k) {
            Some(b) => if b >= oldest_to_keep(new_block, start.blocks_to_cache()) {
                Some(b)
            } else {
                None
            },
            None => None,
        } by {
            assert(mid.recent_block(k) == start.recent_after_insert(new_block, keys@, k));
            assert(removed.recent_block(k) == match mid.recent_block(k) {
                Some(b) => if b >= keep {
                    Some(b)
                } else {
                    None
                },
                None => None,
            });
        }
    }
}

/// The oldest block that stays cached after an update at `new_block`:
/// `new_block - (blocks_to_cache - 1)`, at least zero.
pub open spec fn oldest_to_keep(new_block: u64, blocks_to_cache: u64) -> u64 {
    if blocks_to_cache == 0 {
        new_block
    } else if new_block >= blocks_to_cache - 1 {
        (new_block - (blocks_to_cache - 1)) as u64
    } else {
        0
    }
}

/// The keys of `values`, each once, in order of first appearance.
pub fn found_keys<V: CacheKey>(values: &Vec<V>) -> (r: Vec<u64>)
    ensures
        r@ == distinct_keys(values@),
{
    let mut r: Vec<u64> = Vec::new();
    let mut i: usize = 0;
    assert(values@.subrange(0, 0) =~= Seq::<V>::empty());
    while i < values.len()
        invariant
            0 <= i <= values@.len(),
            r@ == distinct_keys(values@.subrange(0, i as int)),
        decreases values@.len() - i,
    {
        let ghost next = values@.subrange(0, i + 1);
        assert(next.drop_last() =~= values@.subrange(0, i as int));
        assert(next.last() == values@[i as int]);
        let k = values[i].cache_key();
        if !contains_key(&r, k) {
            r.push(k);
        }
        i = i + 1;
    }
    assert(values@.subrange(0, values@.len() as int) =~= values@);
    r
}

/// Splits the keys to fetch into requests of at most `REQUEST_BATCH_SIZE`
/// keys, in order.
pub fn miss_chunks(misses: &Vec<u64>) -> (r: Vec<Vec<u64>>)
    ensures
        forall|i: int| 0 <= i < r@.len() ==> 0 < #[trigger] r@[i]@.len() <= REQUEST_BATCH_SIZE,
        r@.map_values(|c: Vec<u64>| c@).fold_left(Seq::<u64>::empty(), |acc: Seq<u64>, c: Seq<u64>| acc + c) == misses@,
{
    let mut r: Vec<Vec<u64>> = Vec::new();
    let mut start: usize = 0;
    while start < misses.len()
        invariant
            0 <= start <= misses@.len(),
            forall|i: int| 0 <= i < r@.len() ==> 0 < #[trigger] r@[i]@.len() <= REQUEST_BATCH_SIZE,
            r@.map_values(|c: Vec<u64>| c@).fold_left(Seq::<u64>::empty(), |acc: Seq<u64>, c: Seq<u64>| acc + c) == misses@.subrange(0, start as int),
        decreases misses@.len() - start,
    {
        let end = if misses.len() - start > REQUEST_BATCH_SIZE {
            start + REQUEST_BATCH_SIZE
        } else {
            misses.len()
        };
        let chunk = copy_keys(misses, start, end);
        let ghost before = r@;
        r.push(chunk);
        proof {
            assert(r@.map_values(|c: Vec<u64>| c@) =~= before.map_values(|c: Vec<u64>| c@).push(chunk@));
            assert(r@.map_values(|c: Vec<u64>| c@).drop_last() =~= before.map_values(|c: Vec<u64>| c@));
            assert(misses@.subrange(0, end as int) =~= misses@.subrange(0, start as int) + chunk@);
        }
        start = end;
    }
    assert(misses@.subrange(0, misses@.len() as int) =~= misses@);
    r
}

fn copy_keys(keys: &Vec<u64>, lo: usize, hi: usize) -> (r: Vec<u64>)
    requires
        lo <= hi <= keys@.len(),
    ensures
        r@ == keys@.subrange(lo as int, hi as int),
{
    let mut r: Vec<u64> = Vec::new();
    let mut i: usize = lo;
    while i < hi
        invariant
            lo <= i <= hi <= keys@.len(),
            r@ == keys@.subrange(lo as int, i as int),
        decreases hi - i,
    {
        r.push(keys[i]);
        assert(r@ =~= keys@.subrange(lo as int, i + 1));
        i = i + 1;
    }
    r
}

/// A fetch of `keys` at block `n` whose misses were fetched and handed back
/// is followed by a fetch of the same keys at `n` that is all hits: nothing
/// is fetched again, and each key reads the values that the first fetch
/// returned for it, the cached ones or those fetched.
pub proof fn lemma_repeated_fetch_hits_cache<V: CacheKey>(
    first: CacheState<V>,
    keys: Seq<u64>,
    n: u64,
    misses: Seq<u64>,
    fetched: Seq<V>,
    second: CacheState<V>,
)
    requires
        forall|k: u64| misses.contains(k) <==> keys.contains(k) && first.hit(k, Block::Number(n)) is None,
        forall|b: u64, k: u64| #[trigger] second.entry(b, k) == first.entry_after_insert(n, misses, fetched, b, k),
    ensures
        forall|k: u64| keys.contains(k) ==> #[trigger] second.hit(k, Block::Number(n)) == Some(n),
        forall|k: u64| keys.contains(k) ==> #[trigger] second.entry(n, k) == if first.hit(k, Block::Number(n)) is Some {
            first.entry(n, k)
        } else {
            Some(values_with_key(fetched, k))
        },
        forall|k: u64| !(keys.contains(k) && #[trigger] second.hit(k, Block::Number(n)) is None),
{
    assert forall|k: u64| keys.contains(k) implies #[trigger] second.hit(k, Block::Number(n)) == Some(n) by {
        assert(second.entry(n, k) == first.entry_after_insert(n, misses, fetched, n, k));
    }
    assert forall|k: u64| keys.contains(k) implies #[trigger] second.entry(n, k) == if first.hit(k, Block::Number(n)) is Some {
        first.entry(n, k)
    } else {
        Some(values_with_key(fetched, k))
    } by {
        assert(second.entry(n, k) == first.entry_after_insert(n, misses, fetched, n, k));
    }
    assert forall|k: u64| !(keys.contains(k) && #[trigger] second.hit(k, Block::Number(n)) is None) by {
        if keys.contains(k) {
            assert(second.entry(n, k) == first.entry_after_insert(n, misses, fetched, n, k));
        }
    }
}

proof fn lemma_chunks_keep_cached<V: CacheKey>(
    first: CacheState<V>,
    n: u64,
    chunks: Seq<Seq<u64>>,
    fetched: Seq<Seq<V>>,
    states: Seq<CacheState<V>>,
    j: int,
)
    requires
        states.len() == chunks.len() + 1,
        fetched.len() == chunks.len(),
        0 <= j <= chunks.len(),
        forall|b: u64, k: u64| #[trigger] states[0].entry(b, k) == first.entry(b, k),
        forall|i: int, b: u64, k: u64|
            0 <= i < chunks.len() ==> #[trigger] states[i + 1].entry(b, k) == states[i].entry_after_insert(
                n,
                chunks[i],
                fetched[i],
                b,
                k,
            ),
    ensures
        forall|k: u64|
            (first.entry(n, k) is Some || exists|i: int| 0 <= i < j && #[trigger] chunks[i].contains(k))
                ==> #[trigger] states[j].entry(n, k) is Some,
    decreases j,
{
    if j > 0 {
        lemma_chunks_keep_cached(first, n, chunks, fetched, states, j - 1);
        assert forall|k: u64|
            (first.entry(n, k) is Some || exists|i: int| 0 <= i < j && #[trigger] chunks[i].contains(k))
                implies #[trigger] states[j].entry(n, k) is Some by {
            let p = j - 1;
            assert(states[p + 1].entry(n, k) == states[p].entry_after_insert(n, chunks[p], fetched[p], n, k));
            assert(p + 1 == j);
            if !chunks[j - 1].contains(k) && !(first.entry(n, k) is Some) {
                let i = choose|i: int| 0 <= i < j && #[trigger] chunks[i].contains(k);
                assert(i < j - 1);
            }
        }
    }
}

/// The same when the misses are handed back in several chunks: once every
/// key that missed lies in a chunk that was handed back, a second fetch of
/// the keys at `n` is all hits and fetches nothing.
pub proof fn lemma_repeated_fetch_hits_cache_in_chunks<V: CacheKey>(
    first: CacheState<V>,
    keys: Seq<u64>,
    n: u64,
    misses: Seq<u64>,
    chunks: Seq<Seq<u64>>,
    fetched: Seq<Seq<V>>,
    states: Seq<CacheState<V>>,
)
    requires
        forall|k: u64| misses.contains(k) <==> keys.contains(k) && first.hit(k, Block::Number(n)) is None,
        forall|k: u64| misses.contains(k) ==> exists|i: int| 0 <= i < chunks.len() && #[trigger] chunks[i].contains(k),
        states.len() == chunks.len() + 1,
        fetched.len() == chunks.len(),
        forall|b: u64, k: u64| #[trigger] states[0].entry(b, k) == first.entry(b, k),
        forall|i: int, b: u64, k: u64|
            0 <= i < chunks.len() ==> #[trigger] states[i + 1].entry(b, k) == states[i].entry_after_insert(
                n,
                chunks[i],
                fetched[i],
                b,
                k,
            ),
    ensures
        forall|k: u64| keys.contains(k) ==> #[trigger] states.last().hit(k, Block::Number(n)) == Some(n),
        forall|k: u64| !(keys.contains(k) && #[trigger] states.last().hit(k, Block::Number(n)) is None),
{
    lemma_chunks_keep_cached(first, n, chunks, fetched, states, chunks.len() as int);
    assert forall|k: u64| keys.contains(k) implies #[trigger] states.last().hit(k, Block::Number(n)) == Some(n) by {
        if !misses.contains(k) {
            assert(first.entry(n, k) is Some);
        }
        assert(states.last() == states[chunks.len() as int]);
    }
}

}
