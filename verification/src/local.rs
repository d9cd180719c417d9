//! A local cache: entries with expiry times, kept in least-recently-used
//! order up to a capacity, with statistics of their use.
use vstd::prelude::*;
use lru::LruCache;
use crate::entry::CachedValue;
use crate::clock::{add_nanos, now_nanos, sat_add};
use crate::stats::{CacheEntryStats, CacheStats, StatsView};
use crate::size::{estimated_size_of, SizeEstimate};
use crate::cache::{Cache, CacheError};
use crate::lru_index::{
    distinct_keys, has_key, key_index, lemma_key_index_unique, lru_cap, lru_clear, lru_entries,
    lru_capacity, lru_get, lru_len, lru_new, lru_pairs, lru_peek, lru_pop, lru_pop_lru, lru_put, put_model,
    to_front,
};

verus! {

/// A cache of values under `String` keys, held in memory. It holds at most
/// `capacity` entries; putting a new key into a full cache drops the least
/// recently used entry.
pub struct LocalCache<V> {
    /// Key to slot number, in recency order.
    index: LruCache<String, usize>,
    /// The entries, each in the slot that the index gives for its key.
    slots: Vec<Option<CachedValue<V>>>,
    /// The empty slots.
    free: Vec<usize>,
    /// How long, in nanoseconds, a new entry lives.
    pub ttl: u64,
    stats: CacheStats,
    name: String,
    /// The latest time that this cache read from the clock; later reads
    /// are never taken as earlier than it.
    clock: u64,
}

/// What a `LocalCache` holds: its entries, most recently used first, its
/// capacity, the lifetime of new entries, its statistics and its name.
pub struct LocalCacheView<V> {
    pub entries: Seq<(Seq<char>, CachedValue<V>)>,
    pub capacity: nat,
    pub ttl: u64,
    pub stats: StatsView,
    pub name: Seq<char>,
}

/// The entries that an index names, each read from its slot.
spec fn resolve<V>(e: Seq<(Seq<char>, usize)>, slots: Seq<Option<CachedValue<V>>>) -> Seq<(Seq<char>, CachedValue<V>)> {
    Seq::new(e.len(), |i: int| (e[i].0, slots[e[i].1 as int].unwrap()))
}

impl<V> View for LocalCache<V> {
    type V = LocalCacheView<V>;

    closed spec fn view(&self) -> LocalCacheView<V> {
        LocalCacheView {
            entries: resolve(lru_entries(self.index), self.slots@),
            capacity: lru_cap(self.index),
            ttl: self.ttl,
            stats: self.stats@,
            name: self.name@,
        }
    }
}

/// The characters of each key.
pub open spec fn key_views(keys: Seq<String>) -> Seq<Seq<char>> {
    keys.map_values(|k: String| k@)
}

/// The position of a pair with key `k` in `r`, if there is one.
pub(crate) fn find_pair<V>(r: &Vec<(String, V)>, k: &String) -> (p: Option<usize>)
    ensures
        p matches Some(j) ==> j < r@.len() && r@[j as int].0@ == k@,
        p is None ==> forall|j: int| 0 <= j < r@.len() ==> (#[trigger] r@[j]).0@ != k@,
{
    let mut j: usize = 0;
    while j < r.len()
        invariant
            0 <= j <= r@.len(),
            forall|a: int| 0 <= a < j ==> (#[trigger] r@[a]).0@ != k@,
        decreases r@.len() - j,
    {
        if r[j].0 == *k {
            return Some(j);
        }
        j = j + 1;
    }
    None
}

/// Each item with its key as characters.
pub open spec fn item_views<V>(items: Seq<(String, V)>) -> Seq<(Seq<char>, V)> {
    items.map_values(|p: (String, V)| (p.0@, p.1))
}

/// The entries of `s` that are still alive after `now`.
pub open spec fn unexpired<V>(s: Seq<(Seq<char>, CachedValue<V>)>, now: u64) -> Seq<(Seq<char>, CachedValue<V>)> {
    s.filter(|p: (Seq<char>, CachedValue<V>)| p.1.expiry > now)
}

/// The hits of all entries of `s`.
pub open spec fn sum_hits<V>(s: Seq<(Seq<char>, CachedValue<V>)>) -> int
    decreases s.len(),
{
    if s.len() == 0 {
        0
    } else {
        sum_hits(s.drop_last()) + s.last().1.hits
    }
}

/// The estimated sizes of all entries of `s`.
pub open spec fn sum_sizes<V>(s: Seq<(Seq<char>, CachedValue<V>)>) -> int
    decreases s.len(),
{
    if s.len() == 0 {
        0
    } else {
        sum_sizes(s.drop_last()) + s.last().1.size_bytes
    }
}

proof fn lemma_unexpired_step<V>(s: Seq<(Seq<char>, CachedValue<V>)>, i: int, now: u64)
    requires
        0 <= i < s.len(),
    ensures
        unexpired(s.take(i + 1), now) == (if s[i].1.expiry > now {
            unexpired(s.take(i), now).push(s[i])
        } else {
            unexpired(s.take(i), now)
        }),
{
    reveal(Seq::filter);
    assert(s.take(i + 1).drop_last() =~= s.take(i));
    assert(s.take(i + 1).last() == s[i]);
}

proof fn lemma_sums_prefix<V>(s: Seq<(Seq<char>, CachedValue<V>)>, i: int)
    requires
        0 <= i <= s.len(),
    ensures
        0 <= sum_hits(s.take(i)) <= sum_hits(s),
        0 <= sum_sizes(s.take(i)) <= sum_sizes(s),
    decreases s.len(),
{
    if s.len() > 0 {
        if i == s.len() {
            assert(s.take(i) =~= s);
            lemma_sums_prefix(s.drop_last(), s.len() - 1);
            assert(s.drop_last().take(s.len() - 1) =~= s.drop_last());
        } else {
            lemma_sums_prefix(s.drop_last(), i);
            assert(s.drop_last().take(i) =~= s.take(i));
        }
    }
}

proof fn lemma_sums_step<V>(s: Seq<(Seq<char>, CachedValue<V>)>, i: int)
    requires
        0 <= i < s.len(),
    ensures
        sum_hits(s.take(i + 1)) == sum_hits(s.take(i)) + s[i].1.hits,
        sum_sizes(s.take(i + 1)) == sum_sizes(s.take(i)) + s[i].1.size_bytes,
{
    assert(s.take(i + 1).drop_last() =~= s.take(i));
}

impl<V> LocalCacheView<V> {
    /// The shape that every cache has: distinct keys, at most `capacity`
    /// entries, and room for at least one.
    pub open spec fn valid(self) -> bool {
        &&& distinct_keys(self.entries)
        &&& self.entries.len() <= self.capacity
        &&& self.capacity >= 1
    }

    /// The entry under key `k`, if there is one.
    pub open spec fn lookup(self, k: Seq<char>) -> Option<CachedValue<V>> {
        if has_key(self.entries, k) {
            Some(self.entries[key_index(self.entries, k)].1)
        } else {
            None
        }
    }

    /// The same cache with other entries.
    pub open spec fn with_entries(self, entries: Seq<(Seq<char>, CachedValue<V>)>) -> LocalCacheView<V> {
        LocalCacheView { entries, ..self }
    }

    /// The same cache with other statistics.
    pub open spec fn with_stats(self, stats: StatsView) -> LocalCacheView<V> {
        LocalCacheView { stats, ..self }
    }

    /// Whether a lookup of `k` at `now` finds a live entry: one whose expiry
    /// `now` has not passed.
    pub open spec fn live_at(self, k: Seq<char>, now: u64) -> bool {
        self.lookup(k) matches Some(e) && now <= e.expiry
    }

    /// The cache after a lookup of `k` at `now`. A live entry counts a hit and
    /// becomes the most recently used; an expired one is dropped and counts a
    /// miss; a missing key counts a miss.
    pub open spec fn after_get(self, k: Seq<char>, now: u64) -> LocalCacheView<V> {
        match self.lookup(k) {
            None => self.with_stats(self.stats.misses_recorded(1)),
            Some(e) => {
                let i = key_index(self.entries, k);
                if now > e.expiry {
                    self.with_entries(self.entries.remove(i)).with_stats(self.stats.misses_recorded(1))
                } else {
                    self.with_entries(
                        seq![(k, CachedValue { hits: (e.hits + 1) as u64, ..e })] + self.entries.remove(i),
                    ).with_stats(self.stats.hits_recorded(1))
                }
            },
        }
    }

    /// The cache after `e` was put under `k`. Replacing an entry under `k`
    /// counts an eviction and, when `count_entries`, sets the number of
    /// entries in the statistics.
    pub open spec fn after_put(self, k: Seq<char>, e: CachedValue<V>, count_entries: bool) -> LocalCacheView<V> {
        let entries = put_model(self.entries, self.capacity, k, e);
        if has_key(self.entries, k) {
            let s1 = self.stats.evictions_recorded(1);
            if count_entries {
                self.with_entries(entries).with_stats(StatsView { total_entries: entries.len() as usize, ..s1 })
            } else {
                self.with_entries(entries).with_stats(s1)
            }
        } else {
            self.with_entries(entries)
        }
    }

    /// The cache after the entry under `k` was refreshed at `now`: a present
    /// entry becomes the most recently used, and if it is live it lives `ttl`
    /// nanoseconds from `now`.
    pub open spec fn after_refresh(self, k: Seq<char>, now: u64) -> LocalCacheView<V> {
        match self.lookup(k) {
            None => self,
            Some(e) => {
                let i = key_index(self.entries, k);
                if now <= e.expiry {
                    self.with_entries(
                        seq![(k, CachedValue { expiry: sat_add(now, self.ttl), ..e })] + self.entries.remove(i),
                    )
                } else {
                    self.with_entries(seq![(k, e)] + self.entries.remove(i))
                }
            },
        }
    }

    /// A new entry made at `now` that lives `ttl` nanoseconds.
    pub open spec fn new_entry(value: V, ttl: u64, size_bytes: usize, now: u64) -> CachedValue<V> {
        CachedValue {
            value,
            expiry: sat_add(now, ttl),
            created: now,
            hits: 0,
            size_bytes,
            last_accessed: now,
            metadata: None,
        }
    }

    /// One lookup of a batch at `now`: a present entry that is alive after
    /// `now` counts a hit and becomes the most recently used; one that is not
    /// is dropped.
    pub open spec fn batch_step(self, k: Seq<char>, now: u64) -> LocalCacheView<V> {
        match self.lookup(k) {
            None => self,
            Some(e) => {
                let i = key_index(self.entries, k);
                if e.expiry > now {
                    self.with_entries(seq![(k, CachedValue { hits: (e.hits + 1) as u64, ..e })] + self.entries.remove(i))
                } else {
                    self.with_entries(self.entries.remove(i))
                }
            },
        }
    }

    /// The cache after the lookups of `keys`, in order, at `now` (the
    /// statistics not yet counted).
    pub open spec fn batch_lookup(self, keys: Seq<Seq<char>>, now: u64) -> LocalCacheView<V>
        decreases keys.len(),
    {
        if keys.len() == 0 {
            self
        } else {
            self.batch_lookup(keys.drop_last(), now).batch_step(keys.last(), now)
        }
    }

    /// The keys of `keys` that a batch lookup at `now` finds alive, each
    /// once, in the order of their first hit.
    pub open spec fn batch_hits(self, keys: Seq<Seq<char>>, now: u64) -> Seq<Seq<char>>
        decreases keys.len(),
    {
        if keys.len() == 0 {
            Seq::empty()
        } else {
            let prev = self.batch_hits(keys.drop_last(), now);
            let k = keys.last();
            if (self.batch_lookup(keys.drop_last(), now).lookup(k) matches Some(e) && e.expiry > now)
                && !prev.contains(k) {
                prev.push(k)
            } else {
                prev
            }
        }
    }

    /// The cache after a batch lookup of `keys` at `now`: each distinct key
    /// found counts a hit, each other key of `keys` a miss.
    pub open spec fn after_get_map(self, keys: Seq<Seq<char>>, now: u64) -> LocalCacheView<V> {
        let hits = self.batch_hits(keys, now).len();
        self.batch_lookup(keys, now).with_stats(
            self.stats.hits_recorded(hits as int).misses_recorded(keys.len() - hits),
        )
    }

    /// The cache after the values of `items` were put under their keys, in
    /// order, at `now`, to live `ttl`, the value of item `i` being of
    /// estimated size `sizes[i]` (the statistics not yet counted).
    pub open spec fn batch_put(self, items: Seq<(Seq<char>, V)>, sizes: Seq<usize>, now: u64) -> LocalCacheView<V>
        decreases items.len(),
    {
        if items.len() == 0 {
            self
        } else {
            let prev = self.batch_put(items.drop_last(), sizes.drop_last(), now);
            prev.with_entries(
                put_model(
                    prev.entries,
                    prev.capacity,
                    items.last().0,
                    LocalCacheView::new_entry(items.last().1, self.ttl, sizes.last(), now),
                ),
            )
        }
    }

    /// A batch of puts changes only the entries.
    pub proof fn lemma_batch_put_keeps(self, items: Seq<(Seq<char>, V)>, sizes: Seq<usize>, now: u64)
        ensures
            self.batch_put(items, sizes, now).stats == self.stats,
            self.batch_put(items, sizes, now).capacity == self.capacity,
            self.batch_put(items, sizes, now).ttl == self.ttl,
            self.batch_put(items, sizes, now).name == self.name,
        decreases items.len(),
    {
        if items.len() > 0 {
            self.lemma_batch_put_keeps(items.drop_last(), sizes.drop_last(), now);
        }
    }

    /// How many of the puts of `batch_put` replaced an entry under their key.
    pub open spec fn batch_replaced(self, items: Seq<(Seq<char>, V)>, sizes: Seq<usize>, now: u64) -> nat
        decreases items.len(),
    {
        if items.len() == 0 {
            0
        } else {
            let prev = self.batch_put(items.drop_last(), sizes.drop_last(), now);
            self.batch_replaced(items.drop_last(), sizes.drop_last(), now) + if has_key(prev.entries, items.last().0) {
                1nat
            } else {
                0nat
            }
        }
    }

    /// The cache after `batch_put`; replacements count as evictions and set
    /// the number of entries in the statistics.
    pub open spec fn after_set_multi(self, items: Seq<(Seq<char>, V)>, sizes: Seq<usize>, now: u64) -> LocalCacheView<V> {
        let done = self.batch_put(items, sizes, now);
        let n = self.batch_replaced(items, sizes, now);
        if n > 0 {
            done.with_stats(StatsView { total_entries: done.entries.len() as usize, ..self.stats.evictions_recorded(n as int) })
        } else {
            done
        }
    }

    /// Whether every entry under one of `keys` can count `n` more hits
    /// without overflow.
    pub open spec fn keys_have_room(self, keys: Seq<Seq<char>>, n: int) -> bool {
        forall|i: int|
            0 <= i < self.entries.len() && keys.contains((#[trigger] self.entries[i]).0) ==> self.entries[i].1.hits
                + n <= u64::MAX
    }
}

impl<V> LocalCacheView<V> {
    /// The time left at `now` before the entry under `k` expires.
    pub open spec fn ttl_left(self, k: Seq<char>, now: u64) -> Option<u64> {
        match self.lookup(k) {
            Some(e) => if e.expiry > now { Some((e.expiry - now) as u64) } else { None::<u64> },
            None => None::<u64>,
        }
    }

    /// How many entries a cleanup at `now` drops.
    pub open spec fn cleanup_count(self, now: u64) -> int {
        self.entries.len() - unexpired(self.entries, now).len()
    }

    /// The cache after a cleanup at `now`.
    pub open spec fn after_cleanup(self, now: u64) -> LocalCacheView<V> {
        if self.cleanup_count(now) > 0 {
            self.with_entries(unexpired(self.entries, now)).with_stats(StatsView {
                total_entries: unexpired(self.entries, now).len() as usize,
                ..self.stats.evictions_recorded(self.cleanup_count(now))
            })
        } else {
            self.with_entries(unexpired(self.entries, now))
        }
    }

    /// `r` is the summary of the entries at `now`.
    pub open spec fn summarizes(self, now: u64, r: CacheEntryStats) -> bool {
        &&& r.total_entries == self.entries.len()
        &&& r.active_entries == unexpired(self.entries, now).len()
        &&& r.expired_entries == self.entries.len() - unexpired(self.entries, now).len()
        &&& r.total_hits == sum_hits(self.entries)
        &&& r.total_size_bytes == sum_sizes(self.entries)
        &&& r.name@ == self.name
    }

    /// The cache after all entries were dropped.
    pub open spec fn after_clear(self) -> LocalCacheView<V> {
        if self.entries.len() > 0 {
            self.with_entries(Seq::empty()).with_stats(StatsView {
                total_entries: 0,
                ..self.stats.evictions_recorded(self.entries.len() as int)
            })
        } else {
            self.with_entries(Seq::empty())
        }
    }

    /// The cache after the entry under `k` was removed.
    pub open spec fn after_remove(self, k: Seq<char>) -> LocalCacheView<V> {
        if has_key(self.entries, k) {
            self.with_entries(self.entries.remove(key_index(self.entries, k)))
        } else {
            self
        }
    }
}

impl<V: Clone> LocalCacheView<V> {
    /// A lookup of `k` at `now` gave `r` and left `after`.
    pub open spec fn get_outcome(self, k: Seq<char>, now: u64, r: Option<V>, after: LocalCacheView<V>) -> bool {
        &&& after == self.after_get(k, now)
        &&& (r is Some <==> self.live_at(k, now))
        &&& (r matches Some(v) ==> cloned(self.lookup(k).unwrap().value, v))
    }

    /// A batch lookup of `keys` at `now` gave `r` and left `after`.
    pub open spec fn get_map_outcome(
        self,
        keys: Seq<Seq<char>>,
        now: u64,
        r: Seq<(String, V)>,
        after: LocalCacheView<V>,
    ) -> bool {
        &&& after == self.after_get_map(keys, now)
        &&& r.len() == self.batch_hits(keys, now).len()
        &&& forall|j: int| 0 <= j < r.len() ==> {
            let k = self.batch_hits(keys, now)[j];
            &&& (#[trigger] r[j]).0@ == k
            &&& cloned(self.lookup(k).unwrap().value, r[j].1)
        }
    }
}

/// Slot numbers in `e` are distinct.
spec fn distinct_slots(e: Seq<(Seq<char>, usize)>) -> bool {
    forall|i: int, j: int|
        0 <= i < e.len() && 0 <= j < e.len() && i != j ==> (#[trigger] e[i]).1 != (#[trigger] e[j]).1
}

/// Slot `id` is named by no pair of `e`.
spec fn slot_unused(e: Seq<(Seq<char>, usize)>, id: int) -> bool {
    forall|i: int| 0 <= i < e.len() ==> (#[trigger] e[i]).1 != id
}

/// Every pair of `e` names a filled slot of `s`.
spec fn slots_filled<V>(e: Seq<(Seq<char>, usize)>, s: Seq<Option<CachedValue<V>>>) -> bool {
    forall|i: int| 0 <= i < e.len() ==> (#[trigger] e[i]).1 < s.len() && s[e[i].1 as int] is Some
}

/// Taking the pair at position `i` out of an index whose keys and slots are
/// distinct keeps them distinct and the slots named filled; the key and the
/// slot of that pair are named no more, and every other pair keeps its
/// order.
proof fn lemma_index_remove<V>(e: Seq<(Seq<char>, usize)>, s: Seq<Option<CachedValue<V>>>, i: int)
    requires
        distinct_keys(e),
        distinct_slots(e),
        slots_filled(e, s),
        0 <= i < e.len(),
    ensures
        distinct_keys(e.remove(i)),
        distinct_slots(e.remove(i)),
        slots_filled(e.remove(i), s),
        slot_unused(e.remove(i), e[i].1 as int),
        !has_key(e.remove(i), e[i].0),
        forall|a: int| 0 <= a < e.remove(i).len() ==> #[trigger] e.remove(i)[a] == e[if a < i { a } else { a + 1 }],
{
    let e1 = e.remove(i);
    assert forall|a: int| 0 <= a < e1.len() implies #[trigger] e1[a] == e[if a < i { a } else { a + 1 }] by {}
    assert forall|a: int, b: int|
        0 <= a < e1.len() && 0 <= b < e1.len() && a != b implies (#[trigger] e1[a]).0 != (#[trigger] e1[b]).0
        && e1[a].1 != e1[b].1 by {
        assert(e1[a] == e[if a < i { a } else { a + 1 }]);
        assert(e1[b] == e[if b < i { b } else { b + 1 }]);
    }
    assert forall|a: int| 0 <= a < e1.len() implies (#[trigger] e1[a]).1 != e[i].1 && e1[a].0 != e[i].0 by {
        assert(e1[a] == e[if a < i { a } else { a + 1 }]);
    }
}

/// Putting `(k, id)` in front of an index whose keys and slots are distinct,
/// where neither `k` nor `id` is named, keeps them distinct; with slot `id`
/// filled, every slot named stays filled.
proof fn lemma_index_push_front<V>(k: Seq<char>, id: usize, e: Seq<(Seq<char>, usize)>, s: Seq<Option<CachedValue<V>>>)
    requires
        distinct_keys(e),
        distinct_slots(e),
        slots_filled(e, s),
        slot_unused(e, id as int),
        !has_key(e, k),
        id < s.len(),
        s[id as int] is Some,
    ensures
        distinct_keys(seq![(k, id)] + e),
        distinct_slots(seq![(k, id)] + e),
        slots_filled(seq![(k, id)] + e, s),
{
    let e2 = seq![(k, id)] + e;
    assert forall|a: int| 0 < a < e2.len() implies #[trigger] e2[a] == e[a - 1] by {}
    assert forall|a: int, b: int|
        0 <= a < e2.len() && 0 <= b < e2.len() && a != b implies (#[trigger] e2[a]).0 != (#[trigger] e2[b]).0
        && e2[a].1 != e2[b].1 by {
        if a > 0 {
            assert(e2[a] == e[a - 1]);
        }
        if b > 0 {
            assert(e2[b] == e[b - 1]);
        }
    }
    assert forall|a: int| 0 <= a < e2.len() implies (#[trigger] e2[a]).1 < s.len() && s[e2[a].1 as int] is Some by {
        if a > 0 {
            assert(e2[a] == e[a - 1]);
        }
    }
}

/// Writing slot `id`, named by no pair of `e`, keeps the slots named filled.
proof fn lemma_slots_filled_update<V>(
    e: Seq<(Seq<char>, usize)>,
    s: Seq<Option<CachedValue<V>>>,
    id: int,
    x: Option<CachedValue<V>>,
)
    requires
        slots_filled(e, s),
        slot_unused(e, id),
        0 <= id < s.len(),
    ensures
        slots_filled(e, s.update(id, x)),
{
    assert forall|a: int| 0 <= a < e.len() implies (#[trigger] e[a]).1 < s.update(id, x).len() && s.update(id, x)[e[a].1 as int] is Some by {
        assert(e[a].1 != id);
    }
}

proof fn lemma_resolve_to_front<V>(e: Seq<(Seq<char>, usize)>, s: Seq<Option<CachedValue<V>>>, i: int)
    requires
        0 <= i < e.len(),
    ensures
        resolve(to_front(e, i), s) =~= to_front(resolve(e, s), i),
{
}

proof fn lemma_resolve_remove<V>(e: Seq<(Seq<char>, usize)>, s: Seq<Option<CachedValue<V>>>, i: int)
    requires
        0 <= i < e.len(),
    ensures
        resolve(e.remove(i), s) =~= resolve(e, s).remove(i),
{
}

proof fn lemma_resolve_drop_last<V>(e: Seq<(Seq<char>, usize)>, s: Seq<Option<CachedValue<V>>>)
    requires
        e.len() > 0,
    ensures
        resolve(e.drop_last(), s) =~= resolve(e, s).drop_last(),
{
}

proof fn lemma_resolve_unused_slot<V>(e: Seq<(Seq<char>, usize)>, s: Seq<Option<CachedValue<V>>>, id: int, x: Option<CachedValue<V>>)
    requires
        slot_unused(e, id),
        0 <= id < s.len(),
        forall|i: int| 0 <= i < e.len() ==> (#[trigger] e[i]).1 < s.len(),
    ensures
        resolve(e, s.update(id, x)) =~= resolve(e, s),
{
    assert forall|i: int| 0 <= i < e.len() implies s.update(id, x)[e[i].1 as int] == s[e[i].1 as int] by {
        assert(e[i].1 != id);
    }
}

proof fn lemma_resolve_push_front<V>(
    k: Seq<char>,
    id: usize,
    e: Seq<(Seq<char>, usize)>,
    s: Seq<Option<CachedValue<V>>>,
    v: CachedValue<V>,
)
    requires
        slot_unused(e, id as int),
        id < s.len(),
        forall|i: int| 0 <= i < e.len() ==> (#[trigger] e[i]).1 < s.len(),
    ensures
        resolve(seq![(k, id)] + e, s.update(id as int, Some(v))) =~= seq![(k, v)] + resolve(e, s),
{
    lemma_resolve_unused_slot(e, s, id as int, Some(v));
    let lhs = resolve(seq![(k, id)] + e, s.update(id as int, Some(v)));
    let rhs = seq![(k, v)] + resolve(e, s);
    assert forall|i: int| 0 <= i < lhs.len() implies lhs[i] == rhs[i] by {
        if i > 0 {
            assert((seq![(k, id)] + e)[i] == e[i - 1]);
            assert(resolve(e, s.update(id as int, Some(v)))[i - 1] == resolve(e, s)[i - 1]);
        }
    }
}

impl<V> LocalCache<V> {
    /// The internal consistency of the index, the slots and the free list.
    pub closed spec fn wf(&self) -> bool {
        let e = lru_entries(self.index);
        let s = self.slots@;
        let f = self.free@;
        &&& lru_cap(self.index) >= 1
        &&& e.len() <= lru_cap(self.index)
        &&& distinct_keys(e)
        &&& distinct_slots(e)
        &&& slots_filled(e, s)
        &&& forall|i: int, j: int|
            0 <= i < f.len() && 0 <= j < f.len() && i != j ==> (#[trigger] f[i]) != (#[trigger] f[j])
        &&& forall|i: int| 0 <= i < f.len() ==> (#[trigger] f[i]) < s.len() && s[f[i] as int] is None
        &&& e.len() + f.len() == s.len()
    }

    /// A consistent cache has the shape of `LocalCacheView::valid`.
    pub proof fn lemma_wf_valid(&self)
        requires
            self.wf(),
        ensures
            self@.valid(),
    {
        let e = lru_entries(self.index);
        let r = resolve(e, self.slots@);
        assert forall|i: int, j: int|
            0 <= i < r.len() && 0 <= j < r.len() && i != j implies (#[trigger] r[i]).0 != (#[trigger] r[j]).0 by {
            assert(r[i].0 == e[i].0);
            assert(r[j].0 == e[j].0);
        }
    }

    /// The position and slot of key `k` agree between the index and the
    /// entries.
    proof fn lemma_key_agrees(&self, k: Seq<char>)
        requires
            self.wf(),
        ensures
            has_key(self@.entries, k) == has_key(lru_entries(self.index), k),
            has_key(self@.entries, k) ==> key_index(self@.entries, k) == key_index(lru_entries(self.index), k),
    {
        self.lemma_wf_valid();
        let e = lru_entries(self.index);
        let r = self@.entries;
        if has_key(e, k) {
            let i = key_index(e, k);
            assert(r[i].0 == k);
            lemma_key_index_unique(r, i);
        }
        if has_key(r, k) {
            let i = key_index(r, k);
            assert(e[i].0 == k);
        }
    }

    /// An empty cache named `name`, whose entries live `ttl` nanoseconds,
    /// that holds up to `max(max_size, 1)` entries and counts into `stats`.
    pub fn new(name: String, ttl: u64, max_size: usize, stats: CacheStats) -> (r: Self)
        ensures
            r.wf(),
            r@.entries == Seq::<(Seq<char>, CachedValue<V>)>::empty(),
            r@.capacity == (if max_size >= 1 { max_size } else { 1 }),
            r@.ttl == ttl,
            r@.stats == stats@,
            r@.name == name@,
    {
        let capacity = if max_size >= 1 { max_size } else { 1 };
        let r = LocalCache {
            index: lru_new(capacity),
            slots: Vec::new(),
            free: Vec::new(),
            ttl,
            stats,
            name,
            clock: 0,
        };
        assert(r@.entries =~= Seq::<(Seq<char>, CachedValue<V>)>::empty());
        r
    }

    /// The latest time that this cache read from the clock (zero before its
    /// first reading). The functions that read the clock take the time as
    /// no earlier than this, so the cache's time never runs backwards.
    pub closed spec fn last_reading(&self) -> u64 {
        self.clock
    }

    /// The current time as this cache sees it: the clock's reading, or the
    /// latest time the cache read if the clock now reads earlier.
    fn read_clock(&self) -> (r: u64)
        ensures
            r >= self.last_reading(),
    {
        let t = now_nanos();
        if t < self.clock {
            self.clock
        } else {
            t
        }
    }

    /// How long, in nanoseconds, a new entry lives.
    pub fn ttl(&self) -> (r: u64)
        ensures
            r == self@.ttl,
    {
        self.ttl
    }

    /// The statistics this cache counts into.
    pub fn stats(&self) -> (r: &CacheStats)
        ensures
            r@ == self@.stats,
    {
        &self.stats
    }

    /// Exchanges the statistics this cache counts into with `other`; caches
    /// that share one set of statistics take it in turn.
    pub fn swap_stats(&mut self, other: &mut CacheStats)
        requires
            old(self).wf(),
        ensures
            final(self).wf(),
            final(self)@ == old(self)@.with_stats(old(other)@),
            final(other)@ == old(self)@.stats,
    {
        std::mem::swap(&mut self.stats, other);
    }

    /// The number of entries.
    pub fn len(&self) -> (r: usize)
        requires
            self.wf(),
        ensures
            r == self@.entries.len(),
    {
        lru_len(&self.index)
    }

    /// Whether there is no entry.
    pub fn is_empty(&self) -> (r: bool)
        requires
            self.wf(),
        ensures
            r == (self@.entries.len() == 0),
    {
        lru_len(&self.index) == 0
    }

    /// The slot of key `k`, without a change of order.
    fn find(&self, k: &String) -> (r: Option<usize>)
        requires
            self.wf(),
        ensures
            r is Some <==> has_key(self@.entries, k@),
            r matches Some(id) ==> id < self.slots@.len() && self.slots@[id as int] == Some(
                self@.lookup(k@).unwrap(),
            ) && id == lru_entries(self.index)[key_index(lru_entries(self.index), k@)].1,
    {
        proof {
            self.lemma_key_agrees(k@);
        }
        let r = lru_peek(&self.index, k);
        proof {
            if has_key(lru_entries(self.index), k@) {
                let i = key_index(lru_entries(self.index), k@);
                assert(lru_entries(self.index)[i].0 == k@);
            }
        }
        r
    }

    /// The other parts of two caches agree.
    spec fn same_rest(&self, other: &Self) -> bool {
        &&& self.ttl == other.ttl
        &&& self.stats@ == other.stats@
        &&& self.name@ == other.name@
    }

    /// Makes key `k` the most recently used and gives its slot.
    fn promote(&mut self, k: &String) -> (r: Option<usize>)
        requires
            old(self).wf(),
        ensures
            final(self).wf(),
            final(self).same_rest(old(self)),
            final(self).stats == old(self).stats,
            final(self)@.capacity == old(self)@.capacity,
            r is Some <==> has_key(old(self)@.entries, k@),
            r is None ==> final(self)@.entries == old(self)@.entries,
            r matches Some(id) ==> {
                &&& final(self)@.entries == to_front(old(self)@.entries, key_index(old(self)@.entries, k@))
                &&& lru_entries(final(self).index).len() > 0
                &&& lru_entries(final(self).index)[0].1 == id
            },
    {
        proof {
            self.lemma_key_agrees(k@);
        }
        let ghost e0 = lru_entries(self.index);
        let r = lru_get(&mut self.index, k);
        proof {
            if r is Some {
                let i = key_index(e0, k@);
                assert(lru_entries(self.index) == to_front(e0, i));
                lemma_index_remove(e0, self.slots@, i);
                lemma_index_push_front(e0[i].0, e0[i].1, e0.remove(i), self.slots@);
                lemma_resolve_to_front(e0, self.slots@, i);
            }
        }
        r
    }

    /// Writing a new entry into the slot of the entry at position `p` keeps
    /// the cache consistent and changes that entry alone.
    proof fn lemma_set_slot(old_c: &Self, new_c: &Self, p: int, val: CachedValue<V>)
        requires
            old_c.wf(),
            0 <= p < lru_entries(old_c.index).len(),
            new_c.index == old_c.index,
            new_c.free@ == old_c.free@,
            new_c.slots@ == old_c.slots@.update(lru_entries(old_c.index)[p].1 as int, Some(val)),
        ensures
            new_c.wf(),
            new_c@.entries == old_c@.entries.update(p, (old_c@.entries[p].0, val)),
            new_c@.capacity == old_c@.capacity,
    {
        let e = lru_entries(old_c.index);
        let s0 = old_c.slots@;
        assert(s0[e[p].1 as int] is Some);
        assert forall|i: int| 0 <= i < new_c.free@.len() implies (#[trigger] new_c.free@[i]) < new_c.slots@.len()
            && new_c.slots@[new_c.free@[i] as int] is None by {
            assert(s0[new_c.free@[i] as int] is None);
        }
        assert forall|i: int| 0 <= i < e.len() implies (#[trigger] e[i]).1 < new_c.slots@.len()
            && new_c.slots@[e[i].1 as int] is Some by {
        }
        let r0 = resolve(e, s0);
        let r1 = resolve(e, new_c.slots@);
        assert forall|i: int| 0 <= i < r1.len() implies r1[i] == r0.update(p, (r0[p].0, val))[i] by {
            if i != p {
                assert(e[i].1 != e[p].1);
            }
        }
        assert(r1 =~= r0.update(p, (r0[p].0, val)));
    }

    /// Counts a hit on the entry at position `p` and gives a clone of its
    /// value.
    fn hit_at(&mut self, Ghost(p): Ghost<int>, id: usize) -> (v: V)
        where V: Clone
        requires
            old(self).wf(),
            0 <= p < lru_entries(old(self).index).len(),
            lru_entries(old(self).index)[p].1 == id,
            old(self)@.entries[p].1.hits < u64::MAX,
        ensures
            final(self).wf(),
            final(self).same_rest(old(self)),
            final(self)@.capacity == old(self)@.capacity,
            final(self)@.entries == old(self)@.entries.update(
                p,
                (old(self)@.entries[p].0, CachedValue { hits: (old(self)@.entries[p].1.hits + 1) as u64, ..old(self)@.entries[p].1 }),
            ),
            cloned(old(self)@.entries[p].1.value, v),
    {
        let ghost old_c = *old(self);
        let mut tmp = None;
        self.slots.set_and_swap(id, &mut tmp);
        let mut c = tmp.unwrap();
        c.hits = c.hits + 1;
        let v = c.value.clone();
        self.slots.set(id, Some(c));
        proof {
            assert(self.slots@ =~= old_c.slots@.update(id as int, Some(c)));
            Self::lemma_set_slot(&old_c, self, p, c);
        }
        v
    }

    /// Sets the expiry of the entry at position `p`.
    fn set_expiry_at(&mut self, Ghost(p): Ghost<int>, id: usize, expiry: u64)
        requires
            old(self).wf(),
            0 <= p < lru_entries(old(self).index).len(),
            lru_entries(old(self).index)[p].1 == id,
        ensures
            final(self).wf(),
            final(self).same_rest(old(self)),
            final(self)@.capacity == old(self)@.capacity,
            final(self)@.entries == old(self)@.entries.update(
                p,
                (old(self)@.entries[p].0, CachedValue { expiry, ..old(self)@.entries[p].1 }),
            ),
    {
        let ghost old_c = *old(self);
        let mut tmp = None;
        self.slots.set_and_swap(id, &mut tmp);
        let mut c = tmp.unwrap();
        c.expiry = expiry;
        self.slots.set(id, Some(c));
        proof {
            assert(self.slots@ =~= old_c.slots@.update(id as int, Some(c)));
            Self::lemma_set_slot(&old_c, self, p, c);
        }
    }

    /// Removes the entry under key `k` and gives it back.
    fn remove_key(&mut self, k: &String) -> (r: Option<CachedValue<V>>)
        requires
            old(self).wf(),
        ensures
            final(self).wf(),
            final(self).same_rest(old(self)),
            final(self)@.capacity == old(self)@.capacity,
            r == old(self)@.lookup(k@),
            r is None ==> final(self)@.entries == old(self)@.entries,
            r is Some ==> final(self)@.entries == old(self)@.entries.remove(key_index(old(self)@.entries, k@)),
    {
        proof {
            self.lemma_key_agrees(k@);
        }
        let ghost e = lru_entries(self.index);
        let ghost s0 = self.slots@;
        match lru_pop(&mut self.index, k) {
            None => None,
            Some(id) => {
                let ghost i = key_index(e, k@);
                let mut tmp = None;
                self.slots.set_and_swap(id, &mut tmp);
                self.free.push(id);
                proof {
                    let e1 = e.remove(i);
                    assert(s0[e[i].1 as int] is Some);
                    lemma_index_remove(e, s0, i);
                    lemma_slots_filled_update(e1, s0, id as int, None);
                    let f = self.free@;
                    assert forall|a: int| 0 <= a < f.len() implies (#[trigger] f[a]) < self.slots@.len()
                        && self.slots@[f[a] as int] is None by {
                        if a < f.len() - 1 {
                            assert(f[a] == old(self).free@[a]);
                        }
                    }
                    assert forall|a: int, b: int|
                        0 <= a < f.len() && 0 <= b < f.len() && a != b implies (#[trigger] f[a]) != (#[trigger] f[b]) by {
                        if a < f.len() - 1 && b == f.len() - 1 {
                            assert(s0[f[a] as int] is None);
                        }
                        if b < f.len() - 1 && a == f.len() - 1 {
                            assert(s0[f[b] as int] is None);
                        }
                    }
                    lemma_resolve_unused_slot(e1, s0, id as int, None);
                    lemma_resolve_remove(e, s0, i);
                }
                tmp
            },
        }
    }

    /// Puts `val` under key `k` as the most recently used entry: an entry
    /// under `k` is replaced, or, when the cache is full, the least recently
    /// used entry is dropped. Tells whether `k` was present.
    fn insert_key(&mut self, k: String, val: CachedValue<V>) -> (replaced: bool)
        requires
            old(self).wf(),
        ensures
            final(self).wf(),
            final(self).same_rest(old(self)),
            final(self)@.capacity == old(self)@.capacity,
            replaced == has_key(old(self)@.entries, k@),
            final(self)@.entries == put_model(old(self)@.entries, old(self)@.capacity, k@, val),
    {
        proof {
            self.lemma_key_agrees(k@);
            self.lemma_wf_valid();
        }
        let ghost e = lru_entries(self.index);
        let ghost s0 = self.slots@;
        let ghost ents = self@.entries;
        match self.find(&k) {
            Some(id) => {
                let ghost i = key_index(e, k@);
                self.slots.set(id, Some(val));
                let _ = lru_put(&mut self.index, k, id);
                proof {
                    let e1 = e.remove(i);
                    lemma_index_remove(e, s0, i);
                    lemma_slots_filled_update(e1, s0, id as int, Some(val));
                    lemma_resolve_push_front(k@, id, e1, s0, val);
                    lemma_resolve_remove(e, s0, i);
                    assert(lru_entries(self.index) == seq![(k@, id)] + e1);
                    lemma_index_push_front(k@, id, e1, self.slots@);
                    let f = self.free@;
                    assert forall|a: int| 0 <= a < f.len() implies (#[trigger] f[a]) < self.slots@.len()
                        && self.slots@[f[a] as int] is None by {
                        assert(s0[f[a] as int] is None);
                    }
                }
                true
            },
            None => {
                let n = lru_len(&self.index);
                let cap = lru_capacity(&self.index);
                let id: usize;
                if n >= cap {
                    let evicted = lru_pop_lru(&mut self.index);
                    let (_, lid) = evicted.unwrap();
                    id = lid;
                    proof {
                        assert(e.last().1 == id);
                        assert(e.len() == cap);
                    }
                } else if self.free.len() > 0 {
                    let fid = self.free.pop().unwrap();
                    id = fid;
                    proof {
                        assert(s0[id as int] is None);
                        assert forall|a: int| 0 <= a < self.free@.len() implies (#[trigger] self.free@[a]) != id by {
                            assert(self.free@[a] == old(self).free@[a]);
                        }
                    }
                } else {
                    self.slots.push(None);
                    id = self.slots.len() - 1;
                }
                let ghost e1 = lru_entries(self.index);
                let ghost s1 = self.slots@;
                proof {
                    assert(s1.len() >= s0.len());
                    assert(id < s1.len());
                    assert(e1.len() < cap);
                    assert forall|a: int| 0 <= a < e1.len() implies (#[trigger] e1[a]).1 != id && e1[a].1 < s1.len()
                        && s1[e1[a].1 as int] == s0[e1[a].1 as int] && e1[a] == e[a] && e1[a].0 != k@ by {
                        assert(e1[a] == e[a]);
                        if n >= cap {
                            assert(a != e.len() - 1);
                        } else {
                            assert(s0[e[a].1 as int] is Some);
                        }
                    }
                    assert(resolve(e1, s1) =~= resolve(e1, s0));
                    if n >= cap {
                        lemma_resolve_drop_last(e, s0);
                        assert(e1 == e.drop_last());
                    } else {
                        assert(e1 == e);
                    }
                }
                self.slots.set(id, Some(val));
                let _ = lru_put(&mut self.index, k, id);
                proof {
                    lemma_resolve_push_front(k@, id, e1, s1, val);
                    assert(!has_key(e1, k@));
                    assert(lru_entries(self.index) == seq![(k@, id)] + e1);
                    lemma_slots_filled_update(e1, s1, id as int, Some(val));
                    lemma_index_push_front(k@, id, e1, self.slots@);
                    let f = self.free@;
                    assert forall|a: int| 0 <= a < f.len() implies (#[trigger] f[a]) < self.slots@.len()
                        && self.slots@[f[a] as int] is None by {
                        if n >= cap {
                            assert(f[a] == old(self).free@[a]);
                            assert(s0[f[a] as int] is None);
                            assert(f[a] != id);
                        } else if old(self).free@.len() > 0 {
                            assert(f[a] == old(self).free@[a]);
                            assert(f[a] != id);
                        } else {
                            assert(false);
                        }
                    }
                    assert(self@.entries =~= seq![(k@, val)] + resolve(e1, s0));
                }
                false
            },
        }
    }

    /// Looks `key` up at `now`; see `LocalCacheView::after_get`. A live entry
    /// gives a clone of its value.
    pub fn get_at(&mut self, key: &String, now: u64) -> (r: Option<V>)
        where V: Clone
        requires
            old(self).wf(),
            old(self)@.stats.can_count_lookups(1),
            old(self)@.keys_have_room(seq![key@], 1),
        ensures
            final(self).wf(),
            final(self)@ == old(self)@.after_get(key@, now),
            r is Some <==> old(self)@.live_at(key@, now),
            r matches Some(v) ==> cloned(old(self)@.lookup(key@).unwrap().value, v),
    {
        proof {
            self.lemma_key_agrees(key@);
        }
        let ghost v0 = self@;
        match self.promote(key) {
            None => {
                self.stats.record_miss();
                proof {
                    assert(self@.entries == v0.entries);
                }
                None
            },
            Some(id) => {
                let ghost i = key_index(v0.entries, key@);
                let ghost e = v0.entries[i].1;
                proof {
                    lemma_key_index_unique(v0.entries, i);
                    assert(self@.entries[0] == v0.entries[i]);
                }
                let expired = match &self.slots[id] {
                    Some(c) => now > c.expiry,
                    None => false,
                };
                proof {
                    assert(self.slots@[id as int] == Some(e));
                }
                if !expired {
                    proof {
                        assert(seq![key@].contains(v0.entries[i].0)) by {
                            assert(seq![key@][0] == key@);
                        }
                    }
                    let v = self.hit_at(Ghost(0), id);
                    self.stats.record_hit();
                    proof {
                        assert(self@.entries =~= seq![(key@, CachedValue { hits: (e.hits + 1) as u64, ..e })]
                            + v0.entries.remove(i));
                    }
                    Some(v)
                } else {
                    let _ = self.remove_key(key);
                    self.stats.record_miss();
                    proof {
                        lemma_key_index_unique(to_front(v0.entries, i), 0);
                        assert(to_front(v0.entries, i).remove(0) =~= v0.entries.remove(i));
                    }
                    None
                }
            },
        }
    }

    /// Puts `value`, of estimated size `size_bytes`, under `key` at `now`,
    /// to live `ttl` nanoseconds; see `LocalCacheView::after_put`. With
    /// `count_entries` a replacement also sets the number of entries in the
    /// statistics.
    fn put_at(&mut self, key: String, value: V, size_bytes: usize, ttl: u64, now: u64, count_entries: bool)
        requires
            old(self).wf(),
            old(self)@.stats.can_count_evictions(1),
        ensures
            final(self).wf(),
            final(self)@ == old(self)@.after_put(
                key@,
                LocalCacheView::new_entry(value, ttl, size_bytes, now),
                count_entries,
            ),
    {
        let entry = CachedValue::new_at(value, ttl, size_bytes, now);
        let replaced = self.insert_key(key, entry);
        if replaced {
            self.stats.record_eviction(1);
            if count_entries {
                self.stats.total_entries = lru_len(&self.index);
            }
        }
    }

    /// Puts `value`, of estimated size `size_bytes`, under `key` at `now`,
    /// to live the cache's `ttl`.
    pub fn set_sized_at(&mut self, key: String, value: V, size_bytes: usize, now: u64)
        requires
            old(self).wf(),
            old(self)@.stats.can_count_evictions(1),
        ensures
            final(self).wf(),
            final(self)@ == old(self)@.after_put(
                key@,
                LocalCacheView::new_entry(value, old(self)@.ttl, size_bytes, now),
                true,
            ),
    {
        let ttl = self.ttl;
        self.put_at(key, value, size_bytes, ttl, now, true);
    }

    /// Puts `value` under `key` at `now`, to live the cache's `ttl`; its size
    /// is the value's `estimated_size`.
    pub fn set_at(&mut self, key: String, value: V, now: u64)
        where V: SizeEstimate
        requires
            old(self).wf(),
            old(self)@.stats.can_count_evictions(1),
        ensures
            final(self).wf(),
            exists|size_bytes: usize|
                estimated_size_of(value, size_bytes) && final(self)@ == old(self)@.after_put(
                    key@,
                    #[trigger] LocalCacheView::new_entry(value, old(self)@.ttl, size_bytes, now),
                    true,
                ),
    {
        let size_bytes = value.estimated_size();
        let ghost e = LocalCacheView::new_entry(value, self.ttl, size_bytes, now);
        self.set_sized_at(key, value, size_bytes, now);
    }

    /// Puts `value`, of estimated size `size_bytes`, under `key` at `now`,
    /// to live `ttl` nanoseconds; a replacement leaves the number of entries
    /// in the statistics as it was.
    pub fn set_with_ttl_sized_at(&mut self, key: String, value: V, size_bytes: usize, ttl: u64, now: u64)
        requires
            old(self).wf(),
            old(self)@.stats.can_count_evictions(1),
        ensures
            final(self).wf(),
            final(self)@ == old(self)@.after_put(
                key@,
                LocalCacheView::new_entry(value, ttl, size_bytes, now),
                false,
            ),
    {
        self.put_at(key, value, size_bytes, ttl, now, false);
    }

    /// Puts `value` under `key` at `now`, to live `ttl` nanoseconds; its
    /// size is the value's `estimated_size`.
    pub fn set_with_ttl_at(&mut self, key: String, value: V, ttl: u64, now: u64)
        where V: SizeEstimate
        requires
            old(self).wf(),
            old(self)@.stats.can_count_evictions(1),
        ensures
            final(self).wf(),
            exists|size_bytes: usize|
                estimated_size_of(value, size_bytes) && final(self)@ == old(self)@.after_put(
                    key@,
                    #[trigger] LocalCacheView::new_entry(value, ttl, size_bytes, now),
                    false,
                ),
    {
        let size_bytes = value.estimated_size();
        let ghost e = LocalCacheView::new_entry(value, ttl, size_bytes, now);
        self.set_with_ttl_sized_at(key, value, size_bytes, ttl, now);
    }

    /// Removes the entry under `key`; tells whether there was one.
    pub(crate) fn remove_entry(&mut self, key: &String) -> (r: bool)
        requires
            old(self).wf(),
        ensures
            final(self).wf(),
            r == has_key(old(self)@.entries, key@),
            final(self)@ == old(self)@.after_remove(key@),
    {
        let r = self.remove_key(key);
        r.is_some()
    }

    /// Removes every entry; a cache that held some counts them as evictions
    /// and sets its number of entries to zero.
    pub(crate) fn clear_all(&mut self)
        requires
            old(self).wf(),
            old(self)@.stats.can_count_evictions(old(self)@.entries.len() as int),
        ensures
            final(self).wf(),
            final(self)@ == old(self)@.after_clear(),
    {
        let evicted_count = lru_len(&self.index);
        self.clear_entries();
        if evicted_count > 0 {
            self.stats.record_eviction(evicted_count);
            self.stats.total_entries = 0;
        }
    }

    /// Refreshes the entry under `key` at `now`; see
    /// `LocalCacheView::after_refresh`. Tells whether it was live.
    pub fn refresh_at(&mut self, key: &String, now: u64) -> (r: bool)
        requires
            old(self).wf(),
        ensures
            final(self).wf(),
            final(self)@ == old(self)@.after_refresh(key@, now),
            r == old(self)@.live_at(key@, now),
    {
        proof {
            self.lemma_key_agrees(key@);
        }
        let ghost v0 = self@;
        match self.promote(key) {
            None => false,
            Some(id) => {
                let ghost i = key_index(v0.entries, key@);
                let ghost e = v0.entries[i].1;
                proof {
                    lemma_key_index_unique(v0.entries, i);
                    assert(self@.entries[0] == v0.entries[i]);
                }
                let expired = match &self.slots[id] {
                    Some(c) => now > c.expiry,
                    None => false,
                };
                proof {
                    assert(self.slots@[id as int] == Some(e));
                }
                if !expired {
                    let expiry = add_nanos(now, self.ttl);
                    self.set_expiry_at(Ghost(0), id, expiry);
                    proof {
                        assert(self@.entries =~= seq![(key@, CachedValue { expiry: sat_add(now, v0.ttl), ..e })]
                            + v0.entries.remove(i));
                    }
                    true
                } else {
                    proof {
                        assert(self@.entries =~= seq![(key@, e)] + v0.entries.remove(i));
                    }
                    false
                }
            },
        }
    }

    /// Whether the entry under `key` is live at `now`.
    pub fn contains_at(&self, key: &String, now: u64) -> (r: bool)
        requires
            self.wf(),
        ensures
            r == self@.live_at(key@, now),
    {
        match self.find(key) {
            None => false,
            Some(id) => match &self.slots[id] {
                Some(c) => !(now > c.expiry),
                None => false,
            },
        }
    }

    /// The time left at `now` before the entry under `key` expires; `None`
    /// where there is no entry or its expiry has come.
    pub fn get_ttl_at(&self, key: &String, now: u64) -> (r: Option<u64>)
        requires
            self.wf(),
        ensures
            r == self@.ttl_left(key@, now),
    {
        match self.find(key) {
            None => None,
            Some(id) => match &self.slots[id] {
                Some(c) => c.remaining_ttl_at(now),
                None => None,
            },
        }
    }

    /// Drops every entry whose expiry has come by `now` (the entries that
    /// stay keep their order) and gives their number. Dropping some counts
    /// them as evictions and sets the number of entries in the statistics.
    pub fn cleanup_at(&mut self, now: u64) -> (r: usize)
        requires
            old(self).wf(),
            old(self)@.stats.can_count_evictions(old(self)@.entries.len() as int),
        ensures
            final(self).wf(),
            r == old(self)@.cleanup_count(now),
            final(self)@ == old(self)@.after_cleanup(now),
    {
        let ghost v0 = self@;
        let initial_len = lru_len(&self.index);
        let pairs = lru_pairs(&self.index);
        proof {
            assert forall|j: int| 0 <= j < pairs@.len() implies (#[trigger] pairs@[j]).0@ == v0.entries[j].0 by {
                assert(v0.entries[j].0 == lru_entries(self.index)[j].0);
            }
            assert(v0.entries.take(0) =~= Seq::<(Seq<char>, CachedValue<V>)>::empty());
            reveal(Seq::filter);
            assert(v0.entries.skip(0) =~= v0.entries);
            assert(unexpired(v0.entries.take(0), now) =~= Seq::<(Seq<char>, CachedValue<V>)>::empty());
            assert(self@.entries =~= unexpired(v0.entries.take(0), now) + v0.entries.skip(0));
        }
        let n = pairs.len();
        let mut i: usize = 0;
        while i < n
            invariant
                self.wf(),
                self.same_rest(old(self)),
                self@.capacity == v0.capacity,
                v0 == old(self)@,
                v0.valid(),
                n == pairs@.len(),
                n == v0.entries.len(),
                0 <= i <= n,
                forall|j: int| 0 <= j < n ==> (#[trigger] pairs@[j]).0@ == v0.entries[j].0,
                self@.entries == unexpired(v0.entries.take(i as int), now) + v0.entries.skip(i as int),
            decreases n - i,
        {
            let ghost a = unexpired(v0.entries.take(i as int), now);
            let ghost cur = self@.entries;
            proof {
                self.lemma_wf_valid();
                lemma_unexpired_step(v0.entries, i as int, now);
                assert(cur[a.len() as int] == v0.entries[i as int]);
                lemma_key_index_unique(cur, a.len() as int);
                assert(v0.entries.skip(i as int).drop_first() =~= v0.entries.skip(i + 1));
            }
            let key = &pairs[i].0;
            let id = self.find(key).unwrap();
            let expired = match &self.slots[id] {
                Some(c) => c.expiry <= now,
                None => false,
            };
            if expired {
                let _ = self.remove_key(key);
                proof {
                    assert(self@.entries =~= a + v0.entries.skip(i + 1));
                }
            } else {
                proof {
                    assert(self@.entries =~= a.push(v0.entries[i as int]) + v0.entries.skip(i + 1));
                }
            }
            i = i + 1;
        }
        proof {
            assert(v0.entries.take(n as int) =~= v0.entries);
            assert(self@.entries =~= unexpired(v0.entries, now));
        }
        let len = lru_len(&self.index);
        let evicted = initial_len - len;
        if evicted > 0 {
            self.stats.record_eviction(evicted);
            self.stats.total_entries = len;
        }
        evicted
    }

    /// A summary of the entries at `now`: their number, how many are alive
    /// after `now` and how many are not, their hits and sizes in total, and
    /// the cache's name.
    pub fn get_stats_at(&self, now: u64) -> (r: CacheEntryStats)
        requires
            self.wf(),
            sum_hits(self@.entries) <= u64::MAX,
            sum_sizes(self@.entries) <= usize::MAX,
        ensures
            self@.summarizes(now, r),
    {
        let ghost v0 = self@;
        let pairs = lru_pairs(&self.index);
        proof {
            self.lemma_wf_valid();
            assert forall|j: int| 0 <= j < pairs@.len() implies (#[trigger] pairs@[j]).0@ == v0.entries[j].0 by {
                assert(v0.entries[j].0 == lru_entries(self.index)[j].0);
            }
            reveal(Seq::filter);
            assert(v0.entries.take(0) =~= Seq::<(Seq<char>, CachedValue<V>)>::empty());
        }
        let n = pairs.len();
        let mut total_hits: u64 = 0;
        let mut total_size: usize = 0;
        let mut active_count: usize = 0;
        let mut i: usize = 0;
        while i < n
            invariant
                self.wf(),
                v0 == self@,
                v0.valid(),
                n == pairs@.len(),
                n == v0.entries.len(),
                0 <= i <= n,
                sum_hits(v0.entries) <= u64::MAX,
                sum_sizes(v0.entries) <= usize::MAX,
                forall|j: int| 0 <= j < n ==> (#[trigger] pairs@[j]).0@ == v0.entries[j].0,
                total_hits == sum_hits(v0.entries.take(i as int)),
                total_size == sum_sizes(v0.entries.take(i as int)),
                active_count == unexpired(v0.entries.take(i as int), now).len(),
                active_count <= i,
            decreases n - i,
        {
            proof {
                lemma_key_index_unique(v0.entries, i as int);
                lemma_sums_step(v0.entries, i as int);
                lemma_sums_prefix(v0.entries, i + 1);
                lemma_unexpired_step(v0.entries, i as int, now);
            }
            let key = &pairs[i].0;
            let id = self.find(key).unwrap();
            match &self.slots[id] {
                Some(c) => {
                    total_hits = total_hits + c.hits;
                    total_size = total_size + c.size_bytes;
                    if c.expiry > now {
                        active_count = active_count + 1;
                    }
                },
                None => {},
            }
            i = i + 1;
        }
        proof {
            assert(v0.entries.take(n as int) =~= v0.entries);
        }
        let len = lru_len(&self.index);
        CacheEntryStats {
            total_entries: len,
            active_entries: active_count,
            expired_entries: len - active_count,
            total_hits,
            total_size_bytes: total_size,
            name: self.name.clone(),
        }
    }

    /// Looks up each of `keys` at `now`; see `LocalCacheView::after_get_map`.
    /// Gives each key found alive once, in the order of first hits, with a
    /// clone of its value.
    pub fn get_map_at(&mut self, keys: &[String], now: u64) -> (r: Vec<(String, V)>)
        where V: Clone
        requires
            old(self).wf(),
            old(self)@.stats.can_count_lookups(keys@.len() as int),
            old(self)@.keys_have_room(key_views(keys@), keys@.len() as int),
        ensures
            final(self).wf(),
            final(self)@ == old(self)@.after_get_map(key_views(keys@), now),
            r@.len() == old(self)@.batch_hits(key_views(keys@), now).len(),
            forall|j: int| 0 <= j < r@.len() ==> {
                let k = old(self)@.batch_hits(key_views(keys@), now)[j];
                &&& (#[trigger] r@[j]).0@ == k
                &&& cloned(old(self)@.lookup(k).unwrap().value, r@[j].1)
            },
    {
        let ghost v0 = self@;
        let ghost kv = key_views(keys@);
        let mut result: Vec<(String, V)> = Vec::new();
        let n = keys.len();
        proof {
            assert(kv.take(0) =~= Seq::<Seq<char>>::empty());
            assert(v0.batch_lookup(kv.take(0), now) == v0);
            self.lemma_wf_valid();
        }
        let mut i: usize = 0;
        while i < n
            invariant
                self.wf(),
                self.same_rest(old(self)),
                v0 == old(self)@,
                n == keys@.len(),
                kv == key_views(keys@),
                kv.len() == n,
                0 <= i <= n,
                self@ == v0.batch_lookup(kv.take(i as int), now),
                self@.keys_have_room(kv, n - i),
                result@.len() == v0.batch_hits(kv.take(i as int), now).len(),
                result@.len() <= i,
                forall|j: int| 0 <= j < result@.len() ==> {
                    let k = v0.batch_hits(kv.take(i as int), now)[j];
                    &&& (#[trigger] result@[j]).0@ == k
                    &&& cloned(v0.lookup(k).unwrap().value, result@[j].1)
                },
                forall|j: int| 0 <= j < self@.entries.len() ==> {
                    let p = #[trigger] self@.entries[j];
                    &&& has_key(v0.entries, p.0)
                    &&& v0.lookup(p.0).unwrap().value == p.1.value
                },
            decreases n - i,
        {
            let ghost cur = self@;
            let ghost hits = v0.batch_hits(kv.take(i as int), now);
            let key = &keys[i];
            proof {
                assert(kv.take(i + 1).drop_last() =~= kv.take(i as int));
                assert(kv.take(i + 1).last() == key@);
                assert(kv[i as int] == key@);
                self.lemma_wf_valid();
                self.lemma_key_agrees(key@);
            }
            match self.promote(key) {
                None => {
                    proof {
                        assert(self@ == cur.batch_step(key@, now));
                        assert(!(cur.lookup(key@) is Some));
                    }
                },
                Some(id) => {
                    let ghost ki = key_index(cur.entries, key@);
                    let ghost e = cur.entries[ki].1;
                    proof {
                        lemma_key_index_unique(cur.entries, ki);
                        assert(self@.entries[0] == cur.entries[ki]);
                        assert(cur.entries.contains(cur.entries[ki]));
                    }
                    let alive = match &self.slots[id] {
                        Some(c) => c.expiry > now,
                        None => false,
                    };
                    proof {
                        assert(self.slots@[id as int] == Some(e));
                    }
                    if alive {
                        let v = self.hit_at(Ghost(0), id);
                        proof {
                            assert(self@.entries =~= seq![(key@, CachedValue { hits: (e.hits + 1) as u64, ..e })]
                                + cur.entries.remove(ki));
                            assert(self@ == cur.batch_step(key@, now));
                            assert(v0.lookup(key@).unwrap().value == e.value);
                        }
                        match find_pair(&result, key) {
                            Some(pos) => {
                                result.set(pos, (key.clone(), v));
                                proof {
                                    assert(hits.contains(key@)) by {
                                        assert(hits[pos as int] == key@);
                                    }
                                }
                            },
                            None => {
                                result.push((key.clone(), v));
                                proof {
                                    assert(!hits.contains(key@)) by {
                                        if hits.contains(key@) {
                                            let j = choose|j: int| 0 <= j < hits.len() && hits[j] == key@;
                                            assert(result@[j].0@ == key@);
                                        }
                                    }
                                }
                            },
                        }
                    } else {
                        let _ = self.remove_key(key);
                        proof {
                            lemma_key_index_unique(to_front(cur.entries, ki), 0);
                            assert(to_front(cur.entries, ki).remove(0) =~= cur.entries.remove(ki));
                            assert(self@ == cur.batch_step(key@, now));
                        }
                    }
                },
            }
            proof {
                let nxt = self@.entries;
                assert forall|j: int| 0 <= j < nxt.len() implies {
                    let p = #[trigger] nxt[j];
                    &&& has_key(v0.entries, p.0)
                    &&& v0.lookup(p.0).unwrap().value == p.1.value
                } by {
                    if has_key(cur.entries, key@) {
                        let ki = key_index(cur.entries, key@);
                        if cur.entries[ki].1.expiry > now {
                            if j > 0 {
                                let ja = if j - 1 < ki { j - 1 } else { j };
                                assert(nxt[j] == cur.entries[ja]);
                            } else {
                                assert(cur.entries[ki].0 == key@);
                            }
                        } else {
                            let ja = if j < ki { j } else { j + 1 };
                            assert(nxt[j] == cur.entries[ja]);
                        }
                    } else {
                        assert(nxt[j] == cur.entries[j]);
                    }
                }
                assert forall|j: int| 0 <= j < nxt.len() && kv.contains((#[trigger] nxt[j]).0) implies nxt[j].1.hits + (n - i - 1) <= u64::MAX by {
                    if has_key(cur.entries, key@) {
                        let ki = key_index(cur.entries, key@);
                        if cur.entries[ki].1.expiry > now {
                            if j > 0 {
                                let ja = if j - 1 < ki { j - 1 } else { j };
                                assert(nxt[j] == cur.entries[ja]);
                            }
                        } else {
                            let ja = if j < ki { j } else { j + 1 };
                            assert(nxt[j] == cur.entries[ja]);
                        }
                    } else {
                        assert(nxt[j] == cur.entries[j]);
                    }
                }
            }
            i = i + 1;
        }
        proof {
            assert(kv.take(n as int) =~= kv);
        }
        let hit_count = result.len();
        let miss_count = n - hit_count;
        self.stats.record_hits(hit_count);
        self.stats.record_misses(miss_count);
        result
    }

    /// Puts the value of each of `items` under its key, in order, at `now`,
    /// each sized by its `estimated_size`; see `LocalCacheView::after_set_multi`.
    /// Gives the number of puts that replaced an entry under their key.
    pub fn set_multi_at(&mut self, items: Vec<(String, V)>, now: u64) -> (r: usize)
        where V: SizeEstimate
        requires
            old(self).wf(),
            old(self)@.stats.can_count_evictions(items@.len() as int),
        ensures
            final(self).wf(),
            exists|sizes: Seq<usize>| {
                &&& sizes.len() == items@.len()
                &&& forall|j: int| 0 <= j < sizes.len() ==> estimated_size_of(items@[j].1, #[trigger] sizes[j])
                &&& r == old(self)@.batch_replaced(item_views(items@), sizes, now)
                &&& final(self)@ == #[trigger] old(self)@.after_set_multi(item_views(items@), sizes, now)
            },
    {
        let ghost v0 = self@;
        let ghost iv = item_views(items@);
        let ghost mut sizes: Seq<usize> = Seq::empty();
        let ghost mut i: int = 0;
        let mut evicted: usize = 0;
        let total = items.len();
        let mut rest = items;
        proof {
            assert(iv.take(0) =~= Seq::<(Seq<char>, V)>::empty());
            assert(rest@ =~= items@.skip(0));
        }
        while rest.len() > 0
            invariant
                self.wf(),
                self.same_rest(old(self)),
                v0 == old(self)@,
                iv == item_views(items@),
                0 <= i <= items@.len(),
                rest@ == items@.skip(i),
                total == items@.len(),
                sizes.len() == i,
                forall|j: int| 0 <= j < i ==> estimated_size_of(items@[j].1, #[trigger] sizes[j]),
                self@ == v0.batch_put(iv.take(i), sizes, now).with_stats(v0.stats),
                evicted == v0.batch_replaced(iv.take(i), sizes, now),
                evicted <= i,
            decreases rest@.len(),
        {
            let ghost cur = self@;
            proof {
                assert(i < items@.len());
            }
            let (key, value) = rest.remove(0);
            let size = value.estimated_size();
            let ghost e = LocalCacheView::new_entry(value, v0.ttl, size, now);
            proof {
                assert(items@[i] == (key, value));
                assert(iv[i] == (key@, value));
            }
            let entry = CachedValue::new_at(value, self.ttl, size, now);
            let replaced = self.insert_key(key, entry);
            if replaced {
                evicted = evicted + 1;
            }
            proof {
                let ghost old_sizes = sizes;
                sizes = sizes.push(size);
                assert(iv.take(i + 1).drop_last() =~= iv.take(i));
                assert(iv.take(i + 1).last() == (key@, value));
                assert(sizes.drop_last() =~= old_sizes);
                i = i + 1;
                assert(rest@ =~= items@.skip(i));
            }
        }
        proof {
            assert(iv.take(i) =~= iv);
            v0.lemma_batch_put_keeps(iv, sizes, now);
        }
        if evicted > 0 {
            self.stats.record_eviction(evicted);
            self.stats.total_entries = lru_len(&self.index);
        }
        proof {
            assert(self@ == v0.after_set_multi(iv, sizes, now));
        }
        evicted
    }

    /// Whether a lookup of `key` can be counted: the lookup counters have
    /// room for one more, and the entry under `key`, if any, for one more
    /// hit.
    pub fn room_to_get(&self, key: &String) -> (r: bool)
        requires
            self.wf(),
        ensures
            r == (self@.stats.can_count_lookups(1) && self@.keys_have_room(seq![key@], 1)),
    {
        proof {
            self.lemma_wf_valid();
        }
        let stats_room = self.stats.total_hits as u128 + self.stats.total_misses as u128 + 1 <= u64::MAX as u128
            && self.stats.cache_operations.get_operations < u64::MAX;
        let hits_room = match self.find(key) {
            None => true,
            Some(id) => match &self.slots[id] {
                Some(c) => c.hits < u64::MAX,
                None => true,
            },
        };
        proof {
            let es = self@.entries;
            if has_key(es, key@) {
                let i = key_index(es, key@);
                assert(seq![key@].contains(es[i].0)) by {
                    assert(seq![key@][0] == key@);
                }
                assert forall|j: int| 0 <= j < es.len() && seq![key@].contains((#[trigger] es[j]).0) implies es[j].1.hits + 1
                    <= u64::MAX <==> hits_room by {
                    assert(seq![key@].contains(es[j].0) ==> es[j].0 == key@);
                    lemma_key_index_unique(es, j);
                }
            } else {
                assert forall|j: int| 0 <= j < es.len() && seq![key@].contains((#[trigger] es[j]).0) implies false by {
                    assert(es[j].0 == key@);
                }
            }
        }
        stats_room && hits_room
    }

    /// Whether a batch lookup of `keys` can be counted: the lookup counters
    /// have room for as many lookups as keys, and each entry under one of
    /// `keys` for as many hits.
    pub fn room_to_get_all(&self, keys: &[String]) -> (r: bool)
        requires
            self.wf(),
        ensures
            r == (self@.stats.can_count_lookups(keys@.len() as int) && self@.keys_have_room(
                key_views(keys@),
                keys@.len() as int,
            )),
    {
        proof {
            self.lemma_wf_valid();
        }
        let n = keys.len();
        let ghost kv = key_views(keys@);
        let ghost es = self@.entries;
        let stats_room = self.stats.total_hits as u128 + self.stats.total_misses as u128 + n as u128 <= u64::MAX as u128
            && self.stats.cache_operations.get_operations as u128 + n as u128 <= u64::MAX as u128;
        let mut ok = true;
        let mut i: usize = 0;
        while i < n
            invariant
                self.wf(),
                es == self@.entries,
                distinct_keys(es),
                n == keys@.len(),
                kv == key_views(keys@),
                0 <= i <= n,
                ok == (forall|j: int|
                    0 <= j < es.len() && kv.take(i as int).contains((#[trigger] es[j]).0) ==> es[j].1.hits + n
                        <= u64::MAX),
            decreases n - i,
        {
            let ghost before = kv.take(i as int);
            proof {
                assert(kv.take(i + 1) =~= before.push(keys@[i as int]@));
                self.lemma_key_agrees(keys@[i as int]@);
            }
            let fits = match self.find(&keys[i]) {
                None => true,
                Some(id) => match &self.slots[id] {
                    Some(c) => c.hits as u128 + n as u128 <= u64::MAX as u128,
                    None => true,
                },
            };
            proof {
                let k = keys@[i as int]@;
                let after = kv.take(i + 1);
                assert forall|j: int| 0 <= j < es.len() && after.contains((#[trigger] es[j]).0) implies (before.contains(
                    es[j].0,
                ) || es[j].0 == k) by {
                    let m = choose|m: int| 0 <= m < after.len() && after[m] == es[j].0;
                    if m < i {
                        assert(before[m] == after[m]);
                    }
                }
                assert forall|j: int| 0 <= j < es.len() && before.contains((#[trigger] es[j]).0) implies after.contains(es[j].0) by {
                    let m = choose|m: int| 0 <= m < before.len() && before[m] == es[j].0;
                    assert(after[m] == before[m]);
                }
                assert(after.contains(k)) by {
                    assert(after[i as int] == k);
                }
                if has_key(es, k) {
                    let ki = key_index(es, k);
                    assert(es[ki].0 == k);
                    assert forall|j: int| 0 <= j < es.len() && (#[trigger] es[j]).0 == k implies j == ki by {
                        lemma_key_index_unique(es, j);
                    }
                } else {
                    assert forall|j: int| 0 <= j < es.len() implies (#[trigger] es[j]).0 != k by {
                    }
                }
            }
            ok = ok && fits;
            i = i + 1;
        }
        proof {
            assert(kv.take(n as int) =~= kv);
        }
        stats_room && ok
    }

    /// Whether the hits and the sizes of all entries add up without
    /// overflow, as a summary of the entries needs.
    pub fn room_to_summarize(&self) -> (r: bool)
        requires
            self.wf(),
        ensures
            r == (sum_hits(self@.entries) <= u64::MAX && sum_sizes(self@.entries) <= usize::MAX),
    {
        let ghost v0 = self@;
        let pairs = lru_pairs(&self.index);
        proof {
            self.lemma_wf_valid();
            assert forall|j: int| 0 <= j < pairs@.len() implies (#[trigger] pairs@[j]).0@ == v0.entries[j].0 by {
                assert(v0.entries[j].0 == lru_entries(self.index)[j].0);
            }
            assert(v0.entries.take(0) =~= Seq::<(Seq<char>, CachedValue<V>)>::empty());
        }
        let n = pairs.len();
        let mut hits: u128 = 0;
        let mut sizes: u128 = 0;
        let mut i: usize = 0;
        while i < n
            invariant
                self.wf(),
                v0 == self@,
                v0.valid(),
                n == pairs@.len(),
                n == v0.entries.len(),
                0 <= i <= n,
                forall|j: int| 0 <= j < n ==> (#[trigger] pairs@[j]).0@ == v0.entries[j].0,
                hits == sum_hits(v0.entries.take(i as int)),
                sizes == sum_sizes(v0.entries.take(i as int)),
                hits <= i * 0x1_0000_0000_0000_0000,
                sizes <= i * 0x1_0000_0000_0000_0000,
            decreases n - i,
        {
            proof {
                lemma_key_index_unique(v0.entries, i as int);
                lemma_sums_step(v0.entries, i as int);
            }
            let id = self.find(&pairs[i].0).unwrap();
            match &self.slots[id] {
                Some(c) => {
                    hits = hits + c.hits as u128;
                    sizes = sizes + c.size_bytes as u128;
                },
                None => {},
            }
            i = i + 1;
        }
        proof {
            assert(v0.entries.take(n as int) =~= v0.entries);
        }
        hits <= u64::MAX as u128 && sizes <= usize::MAX as u128
    }

    /// Whether `n` more evictions can be counted.
    pub fn room_to_evict(&self, n: usize) -> (r: bool)
        ensures
            r == self@.stats.can_count_evictions(n as int),
    {
        self.stats.total_evictions as u128 + n as u128 <= u64::MAX as u128
    }

    /// The time left before the entry under `key` expires, at the current
    /// time.
    pub fn get_ttl(&self, key: &String) -> (r: Option<u64>)
        requires
            self.wf(),
        ensures
            exists|now: u64| now >= self.last_reading() && r == #[trigger] self@.ttl_left(key@, now),
    {
        let now = self.read_clock();
        self.get_ttl_at(key, now)
    }

    /// Whether the entry under `key` is live at the current time.
    pub fn contains(&self, key: &String) -> (r: bool)
        requires
            self.wf(),
        ensures
            exists|now: u64| now >= self.last_reading() && r == #[trigger] self@.live_at(key@, now),
    {
        let now = self.read_clock();
        self.contains_at(key, now)
    }

    /// A summary of the entries at the current time.
    pub fn get_stats(&self) -> (r: CacheEntryStats)
        requires
            self.wf(),
            sum_hits(self@.entries) <= u64::MAX,
            sum_sizes(self@.entries) <= usize::MAX,
        ensures
            exists|now: u64| now >= self.last_reading() && #[trigger] self@.summarizes(now, r),
    {
        let now = self.read_clock();
        self.get_stats_at(now)
    }

    /// Drops the entries that have expired by the current time and gives
    /// their number.
    pub fn cleanup(&mut self) -> (r: usize)
        requires
            old(self).wf(),
            old(self)@.stats.can_count_evictions(old(self)@.entries.len() as int),
        ensures
            final(self).wf(),
            exists|now: u64|
                now >= old(self).last_reading() && final(self).last_reading() == now && r == old(self)@.cleanup_count(
                    now,
                ) && final(self)@ == #[trigger] old(self)@.after_cleanup(now),
    {
        let now = self.read_clock();
        let r = self.cleanup_at(now);
        self.clock = now;
        r
    }

    /// Looks up each of `keys` at the current time.
    pub fn get_map(&mut self, keys: &[String]) -> (r: Vec<(String, V)>)
        where V: Clone
        requires
            old(self).wf(),
            old(self)@.stats.can_count_lookups(keys@.len() as int),
            old(self)@.keys_have_room(key_views(keys@), keys@.len() as int),
        ensures
            final(self).wf(),
            exists|now: u64|
                now >= old(self).last_reading() && final(self).last_reading() == now
                    && #[trigger] old(self)@.get_map_outcome(key_views(keys@), now, r@, final(self)@),
    {
        let now = self.read_clock();
        let r = self.get_map_at(keys, now);
        self.clock = now;
        proof {
            assert(old(self)@.get_map_outcome(key_views(keys@), now, r@, self@));
        }
        r
    }

    /// Puts each of `items` at the current time; gives the number of puts
    /// that replaced an entry.
    pub fn set_multi(&mut self, items: Vec<(String, V)>) -> (r: usize)
        where V: SizeEstimate
        requires
            old(self).wf(),
            old(self)@.stats.can_count_evictions(items@.len() as int),
        ensures
            final(self).wf(),
            exists|now: u64, sizes: Seq<usize>| {
                &&& now >= old(self).last_reading()
                &&& final(self).last_reading() == now
                &&& sizes.len() == items@.len()
                &&& forall|j: int| 0 <= j < sizes.len() ==> estimated_size_of(items@[j].1, #[trigger] sizes[j])
                &&& r == old(self)@.batch_replaced(item_views(items@), sizes, now)
                &&& final(self)@ == #[trigger] old(self)@.after_set_multi(item_views(items@), sizes, now)
            },
    {
        let now = self.read_clock();
        let r = self.set_multi_at(items, now);
        self.clock = now;
        r
    }

    /// Removes every entry.
    fn clear_entries(&mut self)
        requires
            old(self).wf(),
        ensures
            final(self).wf(),
            final(self).same_rest(old(self)),
            final(self)@.capacity == old(self)@.capacity,
            final(self)@.entries == Seq::<(Seq<char>, CachedValue<V>)>::empty(),
    {
        lru_clear(&mut self.index);
        self.slots.clear();
        self.free.clear();
        assert(self@.entries =~= Seq::<(Seq<char>, CachedValue<V>)>::empty());
    }
}

impl<V: Clone + SizeEstimate> Cache<String, V> for LocalCache<V> {
    open spec fn valid(&self) -> bool {
        self.wf()
    }

    open spec fn can_get(&self, key: String) -> bool {
        &&& self.wf()
        &&& self@.stats.can_count_lookups(1)
        &&& self@.keys_have_room(seq![key@], 1)
    }

    open spec fn can_set(&self) -> bool {
        &&& self.wf()
        &&& self@.stats.can_count_evictions(1)
    }

    open spec fn can_clear(&self) -> bool {
        &&& self.wf()
        &&& self@.stats.can_count_evictions(self@.entries.len() as int)
    }

    /// Looks `key` up at the current time; see `LocalCacheView::after_get`.
    fn get(&mut self, key: &String) -> (r: Result<Option<V>, CacheError>)
        ensures
            final(self).wf(),
            r matches Ok(v) && exists|now: u64|
                now >= old(self).last_reading() && final(self).last_reading() == now
                    && #[trigger] old(self)@.get_outcome(key@, now, v, final(self)@),
            (old(self)@.lookup(key@) matches Some(e) && e.expiry < old(self).last_reading()) ==> r == Ok::<
                Option<V>,
                CacheError,
            >(None),
    {
        let now = self.read_clock();
        let v = self.get_at(key, now);
        self.clock = now;
        proof {
            assert(old(self)@.get_outcome(key@, now, v, self@));
        }
        Ok(v)
    }

    /// Puts `value` under `key` at the current time, to live the cache's
    /// `ttl`; see `LocalCacheView::after_put`.
    fn set(&mut self, key: String, value: V) -> (r: Result<(), CacheError>)
        ensures
            final(self).wf(),
            r is Ok,
            exists|now: u64, size_bytes: usize|
                now >= old(self).last_reading() && final(self).last_reading() == now && estimated_size_of(
                    value,
                    size_bytes,
                ) && final(self)@ == #[trigger] old(self)@.after_put(
                    key@,
                    LocalCacheView::new_entry(value, old(self)@.ttl, size_bytes, now),
                    true,
                ),
    {
        let now = self.read_clock();
        self.set_at(key, value, now);
        self.clock = now;
        Ok(())
    }

    /// Puts `value` under `key` at the current time, to live `ttl`
    /// nanoseconds.
    fn set_with_ttl(&mut self, key: String, value: V, ttl: u64) -> (r: Result<(), CacheError>)
        ensures
            final(self).wf(),
            r is Ok,
            exists|now: u64, size_bytes: usize|
                now >= old(self).last_reading() && final(self).last_reading() == now && estimated_size_of(
                    value,
                    size_bytes,
                ) && final(self)@ == #[trigger] old(self)@.after_put(
                    key@,
                    LocalCacheView::new_entry(value, ttl, size_bytes, now),
                    false,
                ),
    {
        let now = self.read_clock();
        self.set_with_ttl_at(key, value, ttl, now);
        self.clock = now;
        Ok(())
    }

    /// Removes the entry under `key`; tells whether there was one.
    fn remove(&mut self, key: &String) -> (r: Result<bool, CacheError>)
        ensures
            final(self).wf(),
            r == Ok::<bool, CacheError>(has_key(old(self)@.entries, key@)),
            final(self)@ == old(self)@.after_remove(key@),
    {
        Ok(self.remove_entry(key))
    }

    /// Removes every entry; a cache that held some counts them as evictions.
    fn clear(&mut self) -> (r: Result<(), CacheError>)
        ensures
            final(self).wf(),
            r is Ok,
            final(self)@ == old(self)@.after_clear(),
    {
        self.clear_all();
        Ok(())
    }

    /// Refreshes the entry under `key` at the current time; see
    /// `LocalCacheView::after_refresh`.
    fn refresh(&mut self, key: &String) -> (r: Result<bool, CacheError>)
        ensures
            final(self).wf(),
            exists|now: u64|
                now >= old(self).last_reading() && final(self).last_reading() == now && r == Ok::<bool, CacheError>(
                    old(self)@.live_at(key@, now),
                ) && final(self)@ == #[trigger] old(self)@.after_refresh(key@, now),
    {
        let now = self.read_clock();
        let r = self.refresh_at(key, now);
        self.clock = now;
        Ok(r)
    }
}

} // verus!
