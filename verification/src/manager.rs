//! A registry of named caches with the settings that new caches get.
//!
//! The registry holds a handle of type `H` for each name (the caches
//! themselves live elsewhere, shared by whoever holds their handles); a name
//! occurs at most once.
use vstd::prelude::*;
use crate::lru_index::{distinct_keys, has_key, key_index, lemma_key_index_unique};
use crate::local::LocalCache;
use crate::entry::CachedValue;
use crate::stats::{CacheStats, StatsView};

verus! {

/// Named caches and the settings for new ones: lifetime of entries (in
/// nanoseconds), capacity, and the interval between cleanups (in
/// nanoseconds).
pub struct LocalCacheManager<H> {
    caches: Vec<(String, H)>,
    default_ttl: u64,
    default_max_size: usize,
    cleanup_interval: u64,
}

/// What a `LocalCacheManager` holds: its caches in order of creation, and the
/// settings.
pub struct ManagerView<H> {
    pub caches: Seq<(Seq<char>, H)>,
    pub default_ttl: u64,
    pub default_max_size: usize,
    pub cleanup_interval: u64,
}

impl<H> View for LocalCacheManager<H> {
    type V = ManagerView<H>;

    closed spec fn view(&self) -> ManagerView<H> {
        ManagerView {
            caches: self.caches@.map_values(|p: (String, H)| (p.0@, p.1)),
            default_ttl: self.default_ttl,
            default_max_size: self.default_max_size,
            cleanup_interval: self.cleanup_interval,
        }
    }
}

impl<H> ManagerView<H> {
    /// The handle registered under `name`, if any.
    pub open spec fn lookup(self, name: Seq<char>) -> Option<H> {
        if has_key(self.caches, name) {
            Some(self.caches[key_index(self.caches, name)].1)
        } else {
            None
        }
    }
}

/// One minute in nanoseconds.
pub const DEFAULT_CLEANUP_INTERVAL: u64 = 60_000_000_000;

impl<H> LocalCacheManager<H> {
    /// No name occurs twice.
    pub open spec fn wf(&self) -> bool {
        distinct_keys(self@.caches)
    }

    /// A registry with no cache, whose new caches keep entries for
    /// `default_ttl` nanoseconds and hold up to `max(default_max_size, 1)`
    /// of them, cleaned up every minute.
    pub fn new(default_ttl: u64, default_max_size: usize) -> (r: Self)
        ensures
            r.wf(),
            r@.caches == Seq::<(Seq<char>, H)>::empty(),
            r@.default_ttl == default_ttl,
            r@.default_max_size == (if default_max_size >= 1 { default_max_size } else { 1 }),
            r@.cleanup_interval == DEFAULT_CLEANUP_INTERVAL,
    {
        let r = LocalCacheManager {
            caches: Vec::new(),
            default_ttl,
            default_max_size: if default_max_size >= 1 { default_max_size } else { 1 },
            cleanup_interval: DEFAULT_CLEANUP_INTERVAL,
        };
        assert(r@.caches =~= Seq::<(Seq<char>, H)>::empty());
        r
    }

    /// The same registry, cleaned up every `interval` nanoseconds.
    pub fn with_cleanup_interval(self, interval: u64) -> (r: Self)
        ensures
            r.wf() == self.wf(),
            r@ == (ManagerView { cleanup_interval: interval, ..self@ }),
    {
        let mut s = self;
        s.cleanup_interval = interval;
        s
    }

    /// The same registry, whose new caches hold up to `max(max_size, 1)`
    /// entries.
    pub fn with_max_size(self, max_size: usize) -> (r: Self)
        ensures
            r.wf() == self.wf(),
            r@ == (ManagerView { default_max_size: if max_size >= 1 { max_size } else { 1 }, ..self@ }),
    {
        let mut s = self;
        s.default_max_size = if max_size >= 1 { max_size } else { 1 };
        s
    }

    /// The lifetime of entries of new caches.
    pub fn default_ttl(&self) -> (r: u64)
        ensures
            r == self@.default_ttl,
    {
        self.default_ttl
    }

    /// The capacity of new caches.
    pub fn default_max_size(&self) -> (r: usize)
        ensures
            r == self@.default_max_size,
    {
        self.default_max_size
    }

    /// The interval between cleanups.
    pub fn cleanup_interval(&self) -> (r: u64)
        ensures
            r == self@.cleanup_interval,
    {
        self.cleanup_interval
    }

    /// The number of caches.
    pub fn len(&self) -> (r: usize)
        ensures
            r == self@.caches.len(),
    {
        self.caches.len()
    }

    /// The handle of the cache at position `i`, in order of creation.
    pub fn cache_at(&self, i: usize) -> (r: &H)
        requires
            i < self@.caches.len(),
        ensures
            *r == self@.caches[i as int].1,
    {
        &self.caches[i].1
    }

    /// The position of the cache named `name`.
    fn position(&self, name: &String) -> (r: Option<usize>)
        requires
            self.wf(),
        ensures
            r is Some <==> has_key(self@.caches, name@),
            r matches Some(i) ==> i == key_index(self@.caches, name@) && i < self@.caches.len(),
    {
        let n = self.caches.len();
        let mut i: usize = 0;
        while i < n
            invariant
                self.wf(),
                n == self@.caches.len(),
                0 <= i <= n,
                forall|j: int| 0 <= j < i ==> (#[trigger] self@.caches[j]).0 != name@,
            decreases n - i,
        {
            if self.caches[i].0 == *name {
                proof {
                    assert(self@.caches[i as int].0 == name@);
                    lemma_key_index_unique(self@.caches, i as int);
                }
                return Some(i);
            }
            i = i + 1;
        }
        None
    }

    /// The handle of the cache named `name`, if there is one.
    pub fn get_cache(&self, name: &str) -> (r: Option<&H>)
        requires
            self.wf(),
        ensures
            r == (match self@.lookup(name@) {
                Some(h) => Some(&h),
                None => None::<&H>,
            }),
    {
        let name = String::from_str(name);
        match self.position(&name) {
            Some(i) => Some(&self.caches[i].1),
            None => None,
        }
    }

    /// Registers `cache` under `name` unless a cache has that name already;
    /// tells whether it did.
    pub fn insert_cache_if_absent(&mut self, name: &str, cache: H) -> (r: bool)
        requires
            old(self).wf(),
        ensures
            final(self).wf(),
            r == !has_key(old(self)@.caches, name@),
            final(self)@ == (if r {
                ManagerView { caches: old(self)@.caches.push((name@, cache)), ..old(self)@ }
            } else {
                old(self)@
            }),
    {
        let name = String::from_str(name);
        match self.position(&name) {
            Some(_) => false,
            None => {
                let ghost old_caches = self@.caches;
                self.caches.push((name, cache));
                proof {
                    assert(self@.caches =~= old_caches.push((name@, cache)));
                    let c = self@.caches;
                    assert forall|a: int, b: int| 0 <= a < c.len() && 0 <= b < c.len() && a != b implies (#[trigger] c[a]).0
                        != (#[trigger] c[b]).0 by {
                        if a < old_caches.len() && b < old_caches.len() {
                            assert(c[a] == old_caches[a] && c[b] == old_caches[b]);
                        } else if a < old_caches.len() {
                            assert(c[a] == old_caches[a]);
                        } else {
                            assert(c[b] == old_caches[b]);
                        }
                    }
                }
                true
            },
        }
    }

    /// The cache named `name`: the one registered under it, or else `cache`,
    /// which is then registered under `name`.
    pub fn get_or_insert_cache(&mut self, name: &str, cache: H) -> (r: &H)
        requires
            old(self).wf(),
        ensures
            final(self).wf(),
            final(self)@ == (if has_key(old(self)@.caches, name@) {
                old(self)@
            } else {
                ManagerView { caches: old(self)@.caches.push((name@, cache)), ..old(self)@ }
            }),
            final(self)@.lookup(name@) == Some(*r),
            !has_key(old(self)@.caches, name@) ==> *r == cache,
    {
        let _ = self.insert_cache_if_absent(name, cache);
        proof {
            let c = self@.caches;
            if !has_key(old(self)@.caches, name@) {
                lemma_key_index_unique(c, c.len() - 1);
            }
        }
        self.get_cache(name).unwrap()
    }

    /// Removes the cache named `name`; tells whether there was one.
    pub fn remove_cache(&mut self, name: &str) -> (r: bool)
        requires
            old(self).wf(),
        ensures
            final(self).wf(),
            r == has_key(old(self)@.caches, name@),
            final(self)@ == (if r {
                ManagerView {
                    caches: old(self)@.caches.remove(key_index(old(self)@.caches, name@)),
                    ..old(self)@
                }
            } else {
                old(self)@
            }),
    {
        let name = String::from_str(name);
        match self.position(&name) {
            None => false,
            Some(i) => {
                let ghost old_caches = self@.caches;
                let _ = self.caches.remove(i);
                proof {
                    assert(self@.caches =~= old_caches.remove(i as int));
                    let c = self@.caches;
                    assert forall|a: int, b: int| 0 <= a < c.len() && 0 <= b < c.len() && a != b implies (#[trigger] c[a]).0
                        != (#[trigger] c[b]).0 by {
                        let ia = if a < i { a } else { a + 1 };
                        let ib = if b < i { b } else { b + 1 };
                        assert(c[a] == old_caches[ia]);
                        assert(c[b] == old_caches[ib]);
                    }
                }
                true
            },
        }
    }

    /// Removes every cache.
    pub fn clear_all(&mut self)
        requires
            old(self).wf(),
        ensures
            final(self).wf(),
            final(self)@ == (ManagerView { caches: Seq::empty(), ..old(self)@ }),
    {
        self.caches.clear();
        assert(self@.caches =~= Seq::<(Seq<char>, H)>::empty());
    }

    /// A new, empty cache named `name` with the settings for new caches: its
    /// entries live `default_ttl` nanoseconds, it holds up to
    /// `max(default_max_size, 1)` of them, and its statistics are fresh.
    pub fn new_cache<V>(&self, name: &str) -> (r: LocalCache<V>)
        ensures
            r.wf(),
            r@.entries == Seq::<(Seq<char>, CachedValue<V>)>::empty(),
            r@.capacity == (if self@.default_max_size >= 1 { self@.default_max_size } else { 1 }),
            r@.ttl == self@.default_ttl,
            r@.stats == StatsView::fresh(r@.stats.creation_time),
            r@.name == name@,
    {
        LocalCache::new(String::from_str(name), self.default_ttl, self.default_max_size, CacheStats::new())
    }
}

/// The sum of `counts`.
pub open spec fn sum_counts(counts: Seq<usize>) -> int
    decreases counts.len(),
{
    if counts.len() == 0 {
        0
    } else {
        sum_counts(counts.drop_last()) + counts.last()
    }
}

/// The number of entries that a cleanup of every cache removed, from what the
/// cleanup of each removed; `None` where that total does not fit in a
/// `usize`.
pub fn total_cleaned(counts: &[usize]) -> (r: Option<usize>)
    ensures
        r == (if sum_counts(counts@) <= usize::MAX { Some(sum_counts(counts@) as usize) } else { None::<usize> }),
{
    let mut total: usize = 0;
    let mut i: usize = 0;
    while i < counts.len()
        invariant
            0 <= i <= counts@.len(),
            total == sum_counts(counts@.take(i as int)),
        decreases counts@.len() - i,
    {
        proof {
            assert(counts@.take(i + 1).drop_last() =~= counts@.take(i as int));
        }
        match total.checked_add(counts[i]) {
            Some(t) => {
                total = t;
            },
            None => {
                proof {
                    lemma_sum_counts_prefix(counts@, i + 1);
                }
                return None;
            },
        }
        i = i + 1;
    }
    proof {
        assert(counts@.take(i as int) =~= counts@);
    }
    Some(total)
}

/// The sum of a prefix of `counts` is at most the sum of all of them.
proof fn lemma_sum_counts_prefix(counts: Seq<usize>, n: int)
    requires
        0 <= n <= counts.len(),
    ensures
        sum_counts(counts.take(n)) <= sum_counts(counts),
    decreases counts.len() - n,
{
    if n < counts.len() {
        assert(counts.take(n + 1).drop_last() =~= counts.take(n));
        lemma_sum_counts_prefix(counts, n + 1);
    } else {
        assert(counts.take(n) =~= counts);
    }
}

} // verus!
