//! Properties of the cache that hold across operations.
use vstd::prelude::*;
use crate::clock::sat_add;
use crate::entry::CachedValue;
use crate::stats::CacheEntryStats;
use crate::local::{unexpired, LocalCacheView};
use crate::lru_index::{has_key, key_index, lemma_key_index_unique, put_model};
use crate::stats::{push_sample, ratio_in_unit_range, CacheOperations, HitRatio, StatsView};
use crate::manager::ManagerView;
use crate::lru_index::distinct_keys;

verus! {

/// After `e` is put under `k`, the cache keeps its shape, `(k, e)` is its most
/// recently used entry, and a lookup of `k` finds `e`.
pub proof fn law_read_after_put<V>(c: LocalCacheView<V>, k: Seq<char>, e: CachedValue<V>, count_entries: bool)
    requires
        c.valid(),
    ensures
        c.after_put(k, e, count_entries).valid(),
        c.after_put(k, e, count_entries).entries[0] == (k, e),
        c.after_put(k, e, count_entries).lookup(k) == Some(e),
{
    let s = c.entries;
    let rest = if has_key(s, k) {
        s.remove(key_index(s, k))
    } else if s.len() >= c.capacity {
        s.drop_last()
    } else {
        s
    };
    let r = put_model(s, c.capacity, k, e);
    assert(r == seq![(k, e)] + rest);
    assert forall|i: int| 0 <= i < rest.len() implies (#[trigger] rest[i]).0 != k && exists|j: int|
        0 <= j < s.len() && s[j] == rest[i] && (has_key(s, k) ==> j != key_index(s, k)) by {
        if has_key(s, k) {
            let ki = key_index(s, k);
            let j = if i < ki { i } else { i + 1 };
            assert(s[j] == rest[i]);
            if rest[i].0 == k {
                assert(s[ki].0 == k);
            }
        } else {
            assert(s[i] == rest[i]);
        }
    }
    assert forall|a: int, b: int| 0 <= a < r.len() && 0 <= b < r.len() && a != b implies (#[trigger] r[a]).0
        != (#[trigger] r[b]).0 by {
        if a > 0 && b > 0 {
            assert(r[a] == rest[a - 1]);
            assert(r[b] == rest[b - 1]);
            if has_key(s, k) {
                let ki = key_index(s, k);
                let ja = if a - 1 < ki { a - 1 } else { a };
                let jb = if b - 1 < ki { b - 1 } else { b };
                assert(s[ja] == rest[a - 1]);
                assert(s[jb] == rest[b - 1]);
            } else {
                assert(s[a - 1] == rest[a - 1]);
                assert(s[b - 1] == rest[b - 1]);
            }
        } else if a == 0 {
            assert(r[b] == rest[b - 1]);
        } else {
            assert(r[a] == rest[a - 1]);
        }
    }
    lemma_key_index_unique(r, 0);
}

/// A value written with lifetime `ttl` at `now` is read back, unchanged, by a
/// lookup at any `t` from `now` up to its expiry.
pub proof fn law_get_after_set<V>(
    c: LocalCacheView<V>,
    k: Seq<char>,
    value: V,
    ttl: u64,
    size_bytes: usize,
    now: u64,
    t: u64,
)
    requires
        c.valid(),
        now <= t <= sat_add(now, ttl),
    ensures
        c.after_put(k, LocalCacheView::new_entry(value, ttl, size_bytes, now), true).live_at(k, t),
        c.after_put(k, LocalCacheView::new_entry(value, ttl, size_bytes, now), true).lookup(k).unwrap().value
            == value,
{
    law_read_after_put(c, k, LocalCacheView::new_entry(value, ttl, size_bytes, now), true);
}

/// Putting a key that is absent into a full cache drops the least recently
/// used entry and keeps the cache full.
pub proof fn law_put_full_evicts_least_recent<V>(c: LocalCacheView<V>, k: Seq<char>, e: CachedValue<V>, count_entries: bool)
    requires
        c.valid(),
        !has_key(c.entries, k),
        c.entries.len() == c.capacity,
    ensures
        !has_key(c.after_put(k, e, count_entries).entries, c.entries.last().0),
        c.after_put(k, e, count_entries).entries.len() == c.capacity,
{
    let s = c.entries;
    let r = c.after_put(k, e, count_entries).entries;
    let lru = s.last().0;
    assert(r == seq![(k, e)] + s.drop_last());
    assert forall|i: int| 0 <= i < r.len() implies (#[trigger] r[i]).0 != lru by {
        if i == 0 {
            assert(s[s.len() - 1].0 == lru);
        } else {
            assert(r[i] == s[i - 1]);
        }
    }
}

/// Putting a key leaves the entry under any other key as it was, unless that
/// entry was the least recently used one of a full cache and the key put was
/// new.
pub proof fn law_put_keeps_other_keys<V>(c: LocalCacheView<V>, k: Seq<char>, e: CachedValue<V>, count_entries: bool, k2: Seq<char>)
    requires
        c.valid(),
        k2 != k,
        has_key(c.entries, k2),
        has_key(c.entries, k) || c.entries.len() < c.capacity || c.entries.last().0 != k2,
    ensures
        c.after_put(k, e, count_entries).lookup(k2) == c.lookup(k2),
{
    law_read_after_put(c, k, e, count_entries);
    let s = c.entries;
    let r = c.after_put(k, e, count_entries).entries;
    let i2 = key_index(s, k2);
    let j = if has_key(s, k) {
        let ki = key_index(s, k);
        assert(s[ki].0 == k);
        if i2 < ki { i2 + 1 } else { i2 }
    } else {
        i2 + 1
    };
    if !has_key(s, k) && s.len() >= c.capacity {
        assert(i2 != s.len() - 1);
    }
    assert(r[j] == s[i2]);
    lemma_key_index_unique(r, j);
}

/// After the entry under `k` is removed, a lookup of `k` finds nothing and the
/// cache keeps its shape.
pub proof fn law_get_after_remove<V>(c: LocalCacheView<V>, k: Seq<char>)
    requires
        c.valid(),
    ensures
        c.after_remove(k).lookup(k) is None,
        c.after_remove(k).valid(),
{
    let s = c.entries;
    if has_key(s, k) {
        let ki = key_index(s, k);
        let r = s.remove(ki);
        assert forall|i: int| 0 <= i < r.len() implies (#[trigger] r[i]).0 != k by {
            let j = if i < ki { i } else { i + 1 };
            assert(r[i] == s[j]);
        }
        assert forall|a: int, b: int| 0 <= a < r.len() && 0 <= b < r.len() && a != b implies (#[trigger] r[a]).0
            != (#[trigger] r[b]).0 by {
            let ja = if a < ki { a } else { a + 1 };
            let jb = if b < ki { b } else { b + 1 };
            assert(r[a] == s[ja]);
            assert(r[b] == s[jb]);
        }
    }
}

/// Clearing leaves no entry.
pub proof fn law_clear_empties<V>(c: LocalCacheView<V>)
    ensures
        c.after_clear().entries.len() == 0,
        c.after_clear().capacity == c.capacity,
{
}

/// A lookup that finds a live entry makes it the most recently used and
/// counts one hit on it.
pub proof fn law_hit_promotes<V>(c: LocalCacheView<V>, k: Seq<char>, now: u64)
    requires
        c.valid(),
        c.live_at(k, now),
        c.lookup(k).unwrap().hits < u64::MAX,
    ensures
        c.after_get(k, now).entries[0].0 == k,
        c.after_get(k, now).entries[0].1.hits == c.lookup(k).unwrap().hits + 1,
        c.after_get(k, now).entries[0].1.value == c.lookup(k).unwrap().value,
        c.after_get(k, now).entries.len() == c.entries.len(),
{
}

/// A lookup that finds an expired entry drops it.
pub proof fn law_expired_is_dropped<V>(c: LocalCacheView<V>, k: Seq<char>, now: u64)
    requires
        c.valid(),
        c.lookup(k) is Some,
        !c.live_at(k, now),
    ensures
        c.after_get(k, now).lookup(k) is None,
        c.after_get(k, now).entries.len() == c.entries.len() - 1,
{
    law_get_after_remove(c, k);
}

/// After a cleanup at `now` every entry is alive after `now`, and every entry
/// that was alive after `now` is still there, unchanged.
pub proof fn law_cleanup_keeps_exactly_live<V>(c: LocalCacheView<V>, now: u64)
    ensures
        forall|i: int|
            0 <= i < c.after_cleanup(now).entries.len() ==> (#[trigger] c.after_cleanup(now).entries[i]).1.expiry
                > now,
        forall|i: int|
            0 <= i < c.entries.len() && (#[trigger] c.entries[i]).1.expiry > now ==> c.after_cleanup(
                now,
            ).entries.contains(c.entries[i]),
{
    let pred = |p: (Seq<char>, CachedValue<V>)| p.1.expiry > now;
    let f = unexpired(c.entries, now);
    assert(f == c.entries.filter(pred));
    assert forall|i: int| 0 <= i < f.len() implies (#[trigger] f[i]).1.expiry > now by {
        c.entries.lemma_filter_pred(pred, i);
    }
    assert forall|i: int| 0 <= i < c.entries.len() && (#[trigger] c.entries[i]).1.expiry > now implies f.contains(
        c.entries[i],
    ) by {
        c.entries.lemma_filter_contains(pred, i);
    }
}

/// The keys that a batch lookup finds are among the keys asked for, each
/// once.
pub proof fn law_batch_hits_distinct<V>(c: LocalCacheView<V>, keys: Seq<Seq<char>>, now: u64)
    ensures
        forall|j: int| 0 <= j < c.batch_hits(keys, now).len() ==> keys.contains(#[trigger] c.batch_hits(keys, now)[j]),
        forall|a: int, b: int|
            0 <= a < c.batch_hits(keys, now).len() && 0 <= b < c.batch_hits(keys, now).len() && a != b
                ==> #[trigger] c.batch_hits(keys, now)[a] != #[trigger] c.batch_hits(keys, now)[b],
        c.batch_hits(keys, now).len() <= keys.len(),
    decreases keys.len(),
{
    if keys.len() > 0 {
        let prev_keys = keys.drop_last();
        law_batch_hits_distinct(c, prev_keys, now);
        let prev = c.batch_hits(prev_keys, now);
        let h = c.batch_hits(keys, now);
        assert forall|j: int| 0 <= j < h.len() implies keys.contains(#[trigger] h[j]) by {
            if j < prev.len() {
                assert(h[j] == prev[j]);
                let m = choose|m: int| 0 <= m < prev_keys.len() && prev_keys[m] == prev[j];
                assert(keys[m] == prev_keys[m]);
            } else {
                assert(keys[keys.len() - 1] == keys.last());
            }
        }
        assert forall|a: int, b: int| 0 <= a < h.len() && 0 <= b < h.len() && a != b implies #[trigger] h[a]
            != #[trigger] h[b] by {
            if a < prev.len() && b < prev.len() {
                assert(h[a] == prev[a] && h[b] == prev[b]);
            } else if a < prev.len() {
                assert(h[a] == prev[a]);
                assert(!prev.contains(keys.last()));
            } else if b < prev.len() {
                assert(h[b] == prev[b]);
                assert(!prev.contains(keys.last()));
            }
        }
    }
}

/// The number of puts of a batch that replaced an entry is at most the
/// number of items.
pub proof fn law_batch_replaced_bounded<V>(c: LocalCacheView<V>, items: Seq<(Seq<char>, V)>, sizes: Seq<usize>, now: u64)
    ensures
        c.batch_replaced(items, sizes, now) <= items.len(),
    decreases items.len(),
{
    if items.len() > 0 {
        law_batch_replaced_bounded(c, items.drop_last(), sizes.drop_last(), now);
    }
}

/// Counting hits or misses keeps the number of get operations equal to the
/// number of lookups.
pub proof fn law_lookups_match_gets(s: StatsView, n: int)
    requires
        n >= 0,
        s.can_count_lookups(n),
        s.cache_operations.get_operations == s.lookups(),
    ensures
        s.hits_recorded(n).cache_operations.get_operations == s.hits_recorded(n).lookups(),
        s.misses_recorded(n).cache_operations.get_operations == s.misses_recorded(n).lookups(),
        s.hits_recorded(n).lookups() == s.lookups() + n,
        s.misses_recorded(n).lookups() == s.lookups() + n,
{
}

/// Bringing the hit ratio up to date keeps the window of samples within its
/// size, and makes the average the current ratio of hits to lookups.
pub proof fn law_hit_ratio_window(s: StatsView)
    requires
        s.recent_hit_rates.len() <= s.max_recent_samples,
        s.lookups() > 0,
        s.lookups() <= u64::MAX,
    ensures
        s.hit_rate_updated().recent_hit_rates.len() <= s.max_recent_samples,
        s.hit_rate_updated().recent_hit_rates.len() > 0 || s.max_recent_samples == 0,
        s.hit_rate_updated().avg_hit_rate == (HitRatio { hits: s.total_hits, total: s.lookups() as u64 }),
{
    let r = HitRatio { hits: s.total_hits, total: s.lookups() as u64 };
    let p = push_sample(s.recent_hit_rates, r, s.max_recent_samples);
    assert(p.len() <= s.max_recent_samples);
}

/// Every hit ratio kept lies in [0, 1], and the window of samples within its
/// size: so it is in fresh statistics, and so it stays when hits or misses
/// are counted or the hit ratio is brought up to date.
pub proof fn law_hit_ratios_in_unit_range(s: StatsView, n: int, now: u64)
    requires
        s.ratios_in_unit_range(),
        n >= 0,
        s.can_count_lookups(n),
    ensures
        StatsView::fresh(now).ratios_in_unit_range(),
        s.hits_recorded(n).ratios_in_unit_range(),
        s.misses_recorded(n).ratios_in_unit_range(),
        s.hit_rate_updated().ratios_in_unit_range(),
{
    let h = StatsView {
        total_hits: (s.total_hits + n) as u64,
        cache_operations: CacheOperations {
            get_operations: (s.cache_operations.get_operations + n) as u64,
            ..s.cache_operations
        },
        ..s
    };
    let m = StatsView {
        total_misses: (s.total_misses + n) as u64,
        cache_operations: CacheOperations {
            get_operations: (s.cache_operations.get_operations + n) as u64,
            ..s.cache_operations
        },
        ..s
    };
    lemma_update_keeps_unit_range(h);
    lemma_update_keeps_unit_range(m);
    lemma_update_keeps_unit_range(s);
}

/// Bringing the hit ratio up to date keeps every ratio in [0, 1].
proof fn lemma_update_keeps_unit_range(s: StatsView)
    requires
        s.ratios_in_unit_range(),
        s.lookups() <= u64::MAX,
    ensures
        s.hit_rate_updated().ratios_in_unit_range(),
{
    if s.lookups() > 0 {
        let r = HitRatio { hits: s.total_hits, total: s.lookups() as u64 };
        let pushed = s.recent_hit_rates.push(r);
        let p = push_sample(s.recent_hit_rates, r, s.max_recent_samples);
        assert forall|i: int| 0 <= i < pushed.len() implies ratio_in_unit_range(#[trigger] pushed[i]) by {
            if i < s.recent_hit_rates.len() {
                assert(pushed[i] == s.recent_hit_rates[i]);
            }
        }
        assert forall|i: int| 0 <= i < p.len() implies ratio_in_unit_range(#[trigger] p[i]) by {
            if pushed.len() > s.max_recent_samples {
                assert(p[i] == pushed[i + 1]);
            } else {
                assert(p[i] == pushed[i]);
            }
        }
    }
}

/// The peak number of entries is never below the current number.
pub proof fn law_peak_entries(s: StatsView, count: usize)
    requires
        s.total_entries <= s.peak_total_entries,
    ensures
        s.entries_counted(count).total_entries <= s.entries_counted(count).peak_total_entries,
        s.entries_counted(count).peak_total_entries >= s.peak_total_entries,
{
}

/// A cache registered under a new name is found under that name; other
/// names keep their caches.
pub proof fn law_registry_lookup_after_insert<H>(m: ManagerView<H>, name: Seq<char>, h: H, other: Seq<char>)
    requires
        distinct_keys(m.caches),
        !has_key(m.caches, name),
        other != name,
    ensures
        (ManagerView { caches: m.caches.push((name, h)), ..m }).lookup(name) == Some(h),
        (ManagerView { caches: m.caches.push((name, h)), ..m }).lookup(other) == m.lookup(other),
{
    let c = m.caches.push((name, h));
    assert forall|a: int, b: int| 0 <= a < c.len() && 0 <= b < c.len() && a != b implies (#[trigger] c[a]).0
        != (#[trigger] c[b]).0 by {
        if a < m.caches.len() && b < m.caches.len() {
            assert(c[a] == m.caches[a] && c[b] == m.caches[b]);
        } else if a < m.caches.len() {
            assert(c[a] == m.caches[a]);
        } else {
            assert(c[b] == m.caches[b]);
        }
    }
    lemma_key_index_unique(c, m.caches.len() as int);
    if has_key(m.caches, other) {
        let i = key_index(m.caches, other);
        assert(c[i] == m.caches[i]);
        lemma_key_index_unique(c, i);
    } else {
        assert forall|j: int| 0 <= j < c.len() implies (#[trigger] c[j]).0 != other by {
            if j < m.caches.len() {
                assert(c[j] == m.caches[j]);
            }
        }
    }
}

/// After the cache named `name` is removed, no cache has that name, and
/// every other name keeps its cache.
pub proof fn law_registry_lookup_after_remove<H>(m: ManagerView<H>, name: Seq<char>, other: Seq<char>)
    requires
        distinct_keys(m.caches),
        other != name,
    ensures
        ({
            let after = if has_key(m.caches, name) {
                ManagerView { caches: m.caches.remove(key_index(m.caches, name)), ..m }
            } else {
                m
            };
            &&& after.lookup(name) is None
            &&& after.lookup(other) == m.lookup(other)
        }),
{
    if has_key(m.caches, name) {
        let i = key_index(m.caches, name);
        let c = m.caches.remove(i);
        assert forall|a: int| 0 <= a < c.len() implies #[trigger] c[a] == m.caches[if a < i { a } else { a + 1 }] by {}
        assert forall|a: int, b: int| 0 <= a < c.len() && 0 <= b < c.len() && a != b implies (#[trigger] c[a]).0
            != (#[trigger] c[b]).0 by {
            assert(c[a] == m.caches[if a < i { a } else { a + 1 }]);
            assert(c[b] == m.caches[if b < i { b } else { b + 1 }]);
        }
        assert forall|j: int| 0 <= j < c.len() implies (#[trigger] c[j]).0 != name by {
            assert(c[j] == m.caches[if j < i { j } else { j + 1 }]);
        }
        if has_key(m.caches, other) {
            let k = key_index(m.caches, other);
            assert(k != i);
            let kc = if k < i { k } else { k - 1 };
            assert(c[kc] == m.caches[k]);
            lemma_key_index_unique(c, kc);
        } else {
            assert forall|j: int| 0 <= j < c.len() implies (#[trigger] c[j]).0 != other by {
                assert(c[j] == m.caches[if j < i { j } else { j + 1 }]);
            }
        }
    }
}

/// Taking the pair at position `i` out of a list with distinct keys keeps
/// the keys distinct, drops that pair's key, and leaves the pair under every
/// other key as it was.
proof fn lemma_remove_keeps_lookup<V>(s: Seq<(Seq<char>, CachedValue<V>)>, i: int, k: Seq<char>)
    requires
        distinct_keys(s),
        0 <= i < s.len(),
    ensures
        distinct_keys(s.remove(i)),
        !has_key(s.remove(i), s[i].0),
        k != s[i].0 ==> has_key(s.remove(i), k) == has_key(s, k),
        k != s[i].0 && has_key(s, k) ==> s.remove(i)[key_index(s.remove(i), k)] == s[key_index(s, k)],
{
    let r = s.remove(i);
    assert forall|a: int| 0 <= a < r.len() implies #[trigger] r[a] == s[if a < i { a } else { a + 1 }] by {}
    assert forall|a: int, b: int| 0 <= a < r.len() && 0 <= b < r.len() && a != b implies (#[trigger] r[a]).0
        != (#[trigger] r[b]).0 by {
        assert(r[a] == s[if a < i { a } else { a + 1 }]);
        assert(r[b] == s[if b < i { b } else { b + 1 }]);
    }
    assert forall|a: int| 0 <= a < r.len() implies (#[trigger] r[a]).0 != s[i].0 by {
        assert(r[a] == s[if a < i { a } else { a + 1 }]);
    }
    if k != s[i].0 {
        if has_key(s, k) {
            let j = key_index(s, k);
            let a = if j < i { j } else { j - 1 };
            assert(r[a] == s[j]);
            lemma_key_index_unique(r, a);
        }
        if has_key(r, k) {
            let a = key_index(r, k);
            assert(r[a] == s[if a < i { a } else { a + 1 }]);
        }
    }
}

/// Putting a pair with a new key in front of a list with distinct keys
/// keeps the keys distinct, finds the new pair first, and leaves the pair
/// under every other key as it was.
proof fn lemma_front_keeps_lookup<V>(x: (Seq<char>, CachedValue<V>), s: Seq<(Seq<char>, CachedValue<V>)>, k: Seq<char>)
    requires
        distinct_keys(s),
        !has_key(s, x.0),
    ensures
        distinct_keys(seq![x] + s),
        has_key(seq![x] + s, x.0),
        key_index(seq![x] + s, x.0) == 0,
        k != x.0 ==> has_key(seq![x] + s, k) == has_key(s, k),
        k != x.0 && has_key(s, k) ==> (seq![x] + s)[key_index(seq![x] + s, k)] == s[key_index(s, k)],
{
    let r = seq![x] + s;
    assert forall|a: int| 0 < a < r.len() implies #[trigger] r[a] == s[a - 1] by {}
    assert forall|a: int, b: int| 0 <= a < r.len() && 0 <= b < r.len() && a != b implies (#[trigger] r[a]).0
        != (#[trigger] r[b]).0 by {
        if a > 0 {
            assert(r[a] == s[a - 1]);
        }
        if b > 0 {
            assert(r[b] == s[b - 1]);
        }
    }
    lemma_key_index_unique(r, 0);
    if k != x.0 {
        if has_key(s, k) {
            let j = key_index(s, k);
            assert(r[j + 1] == s[j]);
            lemma_key_index_unique(r, j + 1);
        }
        if has_key(r, k) {
            let a = key_index(r, k);
            assert(a > 0);
            assert(r[a] == s[a - 1]);
        }
    }
}

/// One lookup of a batch keeps the cache's shape, and an entry found after
/// it under any key was there before with the same value and expiry.
proof fn lemma_batch_step_keeps<V>(c: LocalCacheView<V>, k2: Seq<char>, now: u64, k: Seq<char>)
    requires
        c.valid(),
    ensures
        c.batch_step(k2, now).valid(),
        c.batch_step(k2, now).lookup(k) matches Some(e2) ==> (c.lookup(k) matches Some(e) && e.expiry == e2.expiry
            && e.value == e2.value),
{
    let s = c.entries;
    if has_key(s, k2) {
        let i = key_index(s, k2);
        lemma_remove_keeps_lookup(s, i, k);
        let e = s[i].1;
        if e.expiry > now {
            let x = (k2, CachedValue { hits: (e.hits + 1) as u64, ..e });
            lemma_front_keeps_lookup(x, s.remove(i), k);
        }
    }
}

/// A batch lookup keeps the cache's shape, and an entry found after it under
/// any key was there before with the same value and expiry.
proof fn lemma_batch_lookup_keeps<V>(c: LocalCacheView<V>, keys: Seq<Seq<char>>, now: u64, k: Seq<char>)
    requires
        c.valid(),
    ensures
        c.batch_lookup(keys, now).valid(),
        c.batch_lookup(keys, now).lookup(k) matches Some(e2) ==> (c.lookup(k) matches Some(e) && e.expiry
            == e2.expiry && e.value == e2.value),
    decreases keys.len(),
{
    if keys.len() > 0 {
        lemma_batch_lookup_keeps(c, keys.drop_last(), now, k);
        lemma_batch_step_keeps(c.batch_lookup(keys.drop_last(), now), keys.last(), now, k);
    }
}

/// Every key that a batch lookup at `now` finds had, before it, an entry
/// alive after `now`.
proof fn lemma_batch_hits_live<V>(c: LocalCacheView<V>, keys: Seq<Seq<char>>, now: u64)
    requires
        c.valid(),
    ensures
        forall|j: int| 0 <= j < c.batch_hits(keys, now).len() ==> (c.lookup(#[trigger] c.batch_hits(keys, now)[j]) matches Some(e)
            && e.expiry > now),
    decreases keys.len(),
{
    if keys.len() > 0 {
        let p = keys.drop_last();
        lemma_batch_hits_live(c, p, now);
        let k = keys.last();
        lemma_batch_lookup_keeps(c, p, now, k);
        let prev = c.batch_hits(p, now);
        let h = c.batch_hits(keys, now);
        assert forall|j: int| 0 <= j < h.len() implies (c.lookup(#[trigger] h[j]) matches Some(e) && e.expiry > now) by {
            if j < prev.len() {
                assert(h[j] == prev[j]);
            } else {
                assert(h[j] == k);
            }
        }
    }
}

/// A batch lookup at `now` answers only with entries alive after `now`: the
/// key of every pair it gives had an entry whose expiry is later than `now`,
/// and the value given is a clone of that entry's value. So, at a time no
/// earlier than the cache's last reading, no entry that expired before that
/// reading is ever among the answers.
pub proof fn law_get_map_answers_only_live<V: Clone>(
    c: LocalCacheView<V>,
    keys: Seq<Seq<char>>,
    now: u64,
    r: Seq<(String, V)>,
    after: LocalCacheView<V>,
)
    requires
        c.valid(),
        c.get_map_outcome(keys, now, r, after),
    ensures
        forall|j: int| 0 <= j < r.len() ==> (c.lookup((#[trigger] r[j]).0@) matches Some(e) && e.expiry > now
            && cloned(e.value, r[j].1)),
{
    lemma_batch_hits_live(c, keys, now);
    assert forall|j: int| 0 <= j < r.len() implies (c.lookup((#[trigger] r[j]).0@) matches Some(e) && e.expiry > now
        && cloned(e.value, r[j].1)) by {
        assert(r[j].0@ == c.batch_hits(keys, now)[j]);
    }
}

/// A lookup at a time no earlier than `last` never answers with an entry
/// whose expiry is before `last`: the answer is none, and the entry is gone
/// afterwards.
pub proof fn law_get_misses_entry_expired_before<V: Clone>(
    c: LocalCacheView<V>,
    k: Seq<char>,
    last: u64,
    now: u64,
    r: Option<V>,
    after: LocalCacheView<V>,
)
    requires
        c.valid(),
        last <= now,
        c.lookup(k) matches Some(e) && e.expiry < last,
        c.get_outcome(k, now, r, after),
    ensures
        r is None,
        after.lookup(k) is None,
{
    law_expired_is_dropped(c, k, now);
}

/// A batch of puts keeps the cache's shape.
proof fn lemma_batch_put_valid<V>(c: LocalCacheView<V>, items: Seq<(Seq<char>, V)>, sizes: Seq<usize>, now: u64)
    requires
        c.valid(),
    ensures
        c.batch_put(items, sizes, now).valid(),
    decreases items.len(),
{
    if items.len() > 0 {
        lemma_batch_put_valid(c, items.drop_last(), sizes.drop_last(), now);
        let prev = c.batch_put(items.drop_last(), sizes.drop_last(), now);
        let e = LocalCacheView::new_entry(items.last().1, c.ttl, sizes.last(), now);
        law_read_after_put(prev, items.last().0, e, false);
    }
}

/// After a batch of puts at `now`, the key of the last item holds a new
/// entry with that item's value and size, made at `now` with no hits, that
/// lives the cache's `ttl`: a lookup at any `t` from `now` up to
/// `now + ttl` finds it alive.
pub proof fn law_set_multi_last_item_lives_ttl<V>(
    c: LocalCacheView<V>,
    items: Seq<(Seq<char>, V)>,
    sizes: Seq<usize>,
    now: u64,
    t: u64,
)
    requires
        c.valid(),
        items.len() > 0,
        sizes.len() == items.len(),
        now <= t <= sat_add(now, c.ttl),
    ensures
        c.after_set_multi(items, sizes, now).lookup(items.last().0) == Some(
            CachedValue {
                value: items.last().1,
                expiry: sat_add(now, c.ttl),
                created: now,
                hits: 0,
                size_bytes: sizes.last(),
                last_accessed: now,
                metadata: None,
            },
        ),
        c.after_set_multi(items, sizes, now).live_at(items.last().0, t),
{
    lemma_batch_put_valid(c, items.drop_last(), sizes.drop_last(), now);
    let prev = c.batch_put(items.drop_last(), sizes.drop_last(), now);
    let e = LocalCacheView::new_entry(items.last().1, c.ttl, sizes.last(), now);
    law_read_after_put(prev, items.last().0, e, false);
    assert(c.batch_put(items, sizes, now).entries == prev.after_put(items.last().0, e, false).entries);
}

/// Every pair after the first of a put is a pair of the list before, under
/// another key.
proof fn lemma_put_model_rest<T>(s: Seq<(Seq<char>, T)>, cap: nat, k: Seq<char>, v: T)
    requires
        distinct_keys(s),
        cap >= 1,
    ensures
        put_model(s, cap, k, v).len() > 0,
        put_model(s, cap, k, v)[0] == (k, v),
        forall|i: int|
            0 < i < put_model(s, cap, k, v).len() ==> s.contains(#[trigger] put_model(s, cap, k, v)[i])
                && put_model(s, cap, k, v)[i].0 != k,
{
    let r = put_model(s, cap, k, v);
    assert forall|i: int| 0 < i < r.len() implies s.contains(#[trigger] r[i]) && r[i].0 != k by {
        if has_key(s, k) {
            let ki = key_index(s, k);
            let j = if i - 1 < ki { i - 1 } else { i };
            assert(r[i] == s[j]);
            assert(s[ki].0 == k);
        } else if s.len() >= cap {
            assert(r[i] == s.drop_last()[i - 1]);
            assert(s.drop_last()[i - 1] == s[i - 1]);
        } else {
            assert(r[i] == s[i - 1]);
        }
    }
}

/// After a batch of puts at `now`, every entry under a key of the batch was
/// made at `now` with no hits and lives the cache's `ttl`, and every other
/// entry was in the cache before, unchanged.
pub proof fn law_set_multi_entries_made_now<V>(
    c: LocalCacheView<V>,
    items: Seq<(Seq<char>, V)>,
    sizes: Seq<usize>,
    now: u64,
)
    requires
        c.valid(),
    ensures
        forall|i: int| 0 <= i < c.after_set_multi(items, sizes, now).entries.len() ==> {
            let p = #[trigger] c.after_set_multi(items, sizes, now).entries[i];
            &&& has_key(items, p.0) ==> p.1.expiry == sat_add(now, c.ttl) && p.1.created == now && p.1.hits == 0
            &&& !has_key(items, p.0) ==> c.entries.contains(p)
        },
{
    lemma_batch_put_keeps_made_now(c, items, sizes, now);
}

/// `law_set_multi_entries_made_now`, over the entries of `batch_put`.
proof fn lemma_batch_put_keeps_made_now<V>(
    c: LocalCacheView<V>,
    items: Seq<(Seq<char>, V)>,
    sizes: Seq<usize>,
    now: u64,
)
    requires
        c.valid(),
    ensures
        forall|i: int| 0 <= i < c.batch_put(items, sizes, now).entries.len() ==> {
            let p = #[trigger] c.batch_put(items, sizes, now).entries[i];
            &&& has_key(items, p.0) ==> p.1.expiry == sat_add(now, c.ttl) && p.1.created == now && p.1.hits == 0
            &&& !has_key(items, p.0) ==> c.entries.contains(p)
        },
    decreases items.len(),
{
    if items.len() > 0 {
        let pre = items.drop_last();
        lemma_batch_put_keeps_made_now(c, pre, sizes.drop_last(), now);
        lemma_batch_put_valid(c, pre, sizes.drop_last(), now);
        let prev = c.batch_put(pre, sizes.drop_last(), now);
        let k = items.last().0;
        let e = LocalCacheView::new_entry(items.last().1, c.ttl, sizes.last(), now);
        lemma_put_model_rest(prev.entries, prev.capacity, k, e);
        let r = c.batch_put(items, sizes, now).entries;
        assert(r == put_model(prev.entries, prev.capacity, k, e));
        assert forall|i: int| 0 <= i < r.len() implies {
            let p = #[trigger] r[i];
            &&& has_key(items, p.0) ==> p.1.expiry == sat_add(now, c.ttl) && p.1.created == now && p.1.hits == 0
            &&& !has_key(items, p.0) ==> c.entries.contains(p)
        } by {
            let p = r[i];
            if i == 0 {
                assert(items[items.len() - 1].0 == k);
            } else {
                let j = choose|j: int| 0 <= j < prev.entries.len() && prev.entries[j] == p;
                assert(p.0 != k);
                if has_key(items, p.0) {
                    let m = choose|m: int| 0 <= m < items.len() && (#[trigger] items[m]).0 == p.0;
                    assert(m != items.len() - 1);
                    assert(pre[m] == items[m]);
                    assert(has_key(pre, p.0));
                } else {
                    assert forall|m: int| 0 <= m < pre.len() implies (#[trigger] pre[m]).0 != p.0 by {
                        assert(pre[m] == items[m]);
                    }
                }
            }
        }
    }
}

/// The live entries at `now` are at most all of them; they are all of them
/// when every entry is alive after `now`, none when none is, and at least one
/// when some entry is.
proof fn lemma_unexpired_len<V>(s: Seq<(Seq<char>, CachedValue<V>)>, now: u64)
    ensures
        unexpired(s, now).len() <= s.len(),
        (forall|i: int| 0 <= i < s.len() ==> (#[trigger] s[i]).1.expiry > now) ==> unexpired(s, now).len() == s.len(),
        (forall|i: int| 0 <= i < s.len() ==> (#[trigger] s[i]).1.expiry <= now) ==> unexpired(s, now).len() == 0,
        (exists|i: int| 0 <= i < s.len() && (#[trigger] s[i]).1.expiry > now) ==> unexpired(s, now).len() >= 1,
    decreases s.len(),
{
    reveal_with_fuel(Seq::filter, 1);
    if s.len() > 0 {
        let d = s.drop_last();
        lemma_unexpired_len(d, now);
        assert(unexpired(s, now) == {
            let sub = unexpired(d, now);
            if s.last().1.expiry > now { sub.push(s.last()) } else { sub }
        });
        assert forall|i: int| 0 <= i < d.len() implies #[trigger] d[i] == s[i] by {}
        if exists|i: int| 0 <= i < s.len() && (#[trigger] s[i]).1.expiry > now {
            let i = choose|i: int| 0 <= i < s.len() && (#[trigger] s[i]).1.expiry > now;
            if i < d.len() {
                assert(d[i] == s[i]);
            }
        }
    }
}

/// A summary at `now` splits the entries into active and expired ones: an
/// entry is active when it is alive after `now`. So when every entry is
/// alive, all are active and none expired; when none is, none is active; and
/// one entry alive makes at least one active.
pub proof fn law_summary_counts_live_entries<V>(c: LocalCacheView<V>, now: u64, r: CacheEntryStats)
    requires
        c.summarizes(now, r),
    ensures
        r.active_entries + r.expired_entries == r.total_entries,
        r.total_entries == c.entries.len(),
        (forall|i: int| 0 <= i < c.entries.len() ==> (#[trigger] c.entries[i]).1.expiry > now) ==> r.active_entries
            == r.total_entries && r.expired_entries == 0,
        (forall|i: int| 0 <= i < c.entries.len() ==> (#[trigger] c.entries[i]).1.expiry <= now) ==> r.active_entries
            == 0 && r.expired_entries == r.total_entries,
        (exists|i: int| 0 <= i < c.entries.len() && (#[trigger] c.entries[i]).1.expiry > now) ==> r.active_entries
            >= 1,
{
    lemma_unexpired_len(c.entries, now);
}

} // verus!
