//! Counters kept by a cache: hits, misses, evictions, operation counts, peaks,
//! and a window of recent hit ratios.
use vstd::prelude::*;
use crate::clock::{now_nanos, sat_sub, span_nanos};

verus! {

/// A hit ratio kept exactly, as the fraction `hits / total`.
#[derive(Clone, Copy, Debug, PartialEq, Eq)]
pub struct HitRatio {
    pub hits: u64,
    pub total: u64,
}

/// How many operations of each kind a cache has served.
#[derive(Clone, Copy, Debug)]
pub struct CacheOperations {
    pub get_operations: u64,
    pub set_operations: u64,
    pub remove_operations: u64,
    pub clear_operations: u64,
    pub refresh_operations: u64,
}

impl CacheOperations {
    pub open spec fn zero() -> CacheOperations {
        CacheOperations {
            get_operations: 0,
            set_operations: 0,
            remove_operations: 0,
            clear_operations: 0,
            refresh_operations: 0,
        }
    }
}

impl Default for CacheOperations {
    fn default() -> (r: Self)
        ensures
            r == CacheOperations::zero(),
    {
        CacheOperations {
            get_operations: 0,
            set_operations: 0,
            remove_operations: 0,
            clear_operations: 0,
            refresh_operations: 0,
        }
    }
}

/// A summary of the entries that one cache holds at a moment.
#[derive(Clone, Debug)]
pub struct CacheEntryStats {
    pub total_entries: usize,
    pub active_entries: usize,
    pub expired_entries: usize,
    pub total_hits: u64,
    pub total_size_bytes: usize,
    pub name: String,
}

impl CacheEntryStats {
    /// An empty summary under `name`.
    pub fn new(name: String) -> (r: Self)
        ensures
            r.total_entries == 0,
            r.active_entries == 0,
            r.expired_entries == 0,
            r.total_hits == 0,
            r.total_size_bytes == 0,
            r.name == name,
    {
        CacheEntryStats {
            total_entries: 0,
            active_entries: 0,
            expired_entries: 0,
            total_hits: 0,
            total_size_bytes: 0,
            name,
        }
    }
}

/// Statistics of a cache. Times are nanoseconds on the library's clock.
#[derive(Clone, Debug)]
pub struct CacheStats {
    pub total_hits: u64,
    pub total_misses: u64,
    pub total_evictions: u64,
    pub total_entries: usize,
    pub memory_usage_bytes: u64,
    pub avg_hit_rate: HitRatio,
    pub last_cleanup: Option<u64>,
    pub last_cleanup_duration: u64,
    pub last_cleanup_count: usize,
    pub creation_time: u64,
    pub peak_memory_usage: u64,
    pub peak_total_entries: usize,
    pub cache_operations: CacheOperations,
    pub recent_hit_rates: Vec<HitRatio>,
    pub max_recent_samples: usize,
}

/// The mathematical content of a `CacheStats`.
#[verifier::ext_equal]
pub struct StatsView {
    pub total_hits: u64,
    pub total_misses: u64,
    pub total_evictions: u64,
    pub total_entries: usize,
    pub memory_usage_bytes: u64,
    pub avg_hit_rate: HitRatio,
    pub last_cleanup: Option<u64>,
    pub last_cleanup_duration: u64,
    pub last_cleanup_count: usize,
    pub creation_time: u64,
    pub peak_memory_usage: u64,
    pub peak_total_entries: usize,
    pub cache_operations: CacheOperations,
    pub recent_hit_rates: Seq<HitRatio>,
    pub max_recent_samples: usize,
}

impl View for CacheStats {
    type V = StatsView;

    open spec fn view(&self) -> StatsView {
        StatsView {
            total_hits: self.total_hits,
            total_misses: self.total_misses,
            total_evictions: self.total_evictions,
            total_entries: self.total_entries,
            memory_usage_bytes: self.memory_usage_bytes,
            avg_hit_rate: self.avg_hit_rate,
            last_cleanup: self.last_cleanup,
            last_cleanup_duration: self.last_cleanup_duration,
            last_cleanup_count: self.last_cleanup_count,
            creation_time: self.creation_time,
            peak_memory_usage: self.peak_memory_usage,
            peak_total_entries: self.peak_total_entries,
            cache_operations: self.cache_operations,
            recent_hit_rates: self.recent_hit_rates@,
            max_recent_samples: self.max_recent_samples,
        }
    }
}

/// The window `samples` after `r` was added at its end and, if it then holds
/// more than `max` samples, its oldest sample was dropped.
pub open spec fn push_sample(samples: Seq<HitRatio>, r: HitRatio, max: usize) -> Seq<HitRatio> {
    let pushed = samples.push(r);
    if pushed.len() > max {
        pushed.subrange(1, pushed.len() as int)
    } else {
        pushed
    }
}

/// The ratio lies in [0, 1]: its hits are at most its total, which is not
/// zero.
pub open spec fn ratio_in_unit_range(r: HitRatio) -> bool {
    r.hits <= r.total && r.total > 0
}

impl StatsView {
    /// The average hit ratio and every sample in the window lie in [0, 1],
    /// and the window holds at most its size.
    pub open spec fn ratios_in_unit_range(self) -> bool {
        &&& ratio_in_unit_range(self.avg_hit_rate)
        &&& forall|i: int| 0 <= i < self.recent_hit_rates.len() ==> ratio_in_unit_range(#[trigger] self.recent_hit_rates[i])
        &&& self.recent_hit_rates.len() <= self.max_recent_samples
    }

    /// Fresh statistics of a cache created at `now`: every counter zero, the
    /// average hit ratio 1/1, a window of up to 100 samples, still empty.
    pub open spec fn fresh(now: u64) -> StatsView {
        StatsView {
            total_hits: 0,
            total_misses: 0,
            total_evictions: 0,
            total_entries: 0,
            memory_usage_bytes: 0,
            avg_hit_rate: HitRatio { hits: 1, total: 1 },
            last_cleanup: None,
            last_cleanup_duration: 0,
            last_cleanup_count: 0,
            creation_time: now,
            peak_memory_usage: 0,
            peak_total_entries: 0,
            cache_operations: CacheOperations::zero(),
            recent_hit_rates: Seq::empty(),
            max_recent_samples: 100,
        }
    }

    /// Hits and misses so far.
    pub open spec fn lookups(self) -> int {
        self.total_hits + self.total_misses
    }

    /// Whether `n` more lookups can be counted without a counter overflowing.
    pub open spec fn can_count_lookups(self, n: int) -> bool {
        &&& self.lookups() + n <= u64::MAX
        &&& self.cache_operations.get_operations + n <= u64::MAX
    }

    /// Whether `n` more evictions can be counted without overflow.
    pub open spec fn can_count_evictions(self, n: int) -> bool {
        self.total_evictions + n <= u64::MAX
    }

    /// The statistics after the hit ratio was brought up to date: the current
    /// ratio of hits to lookups becomes the average and joins the window of
    /// samples; nothing changes while there has been no lookup.
    pub open spec fn hit_rate_updated(self) -> StatsView {
        if self.lookups() > 0 {
            let r = HitRatio { hits: self.total_hits, total: self.lookups() as u64 };
            StatsView {
                avg_hit_rate: r,
                recent_hit_rates: push_sample(self.recent_hit_rates, r, self.max_recent_samples),
                ..self
            }
        } else {
            self
        }
    }

    /// After `n` hits were counted.
    pub open spec fn hits_recorded(self, n: int) -> StatsView {
        StatsView {
            total_hits: (self.total_hits + n) as u64,
            cache_operations: CacheOperations {
                get_operations: (self.cache_operations.get_operations + n) as u64,
                ..self.cache_operations
            },
            ..self
        }.hit_rate_updated()
    }

    /// After `n` misses were counted.
    pub open spec fn misses_recorded(self, n: int) -> StatsView {
        StatsView {
            total_misses: (self.total_misses + n) as u64,
            cache_operations: CacheOperations {
                get_operations: (self.cache_operations.get_operations + n) as u64,
                ..self.cache_operations
            },
            ..self
        }.hit_rate_updated()
    }

    /// After `n` evictions were counted.
    pub open spec fn evictions_recorded(self, n: int) -> StatsView {
        StatsView { total_evictions: (self.total_evictions + n) as u64, ..self }
    }

    /// After the number of entries was set to `count`, the peak kept up.
    pub open spec fn entries_counted(self, count: usize) -> StatsView {
        StatsView {
            total_entries: count,
            peak_total_entries: if count > self.peak_total_entries {
                count
            } else {
                self.peak_total_entries
            },
            ..self
        }
    }
}

impl CacheStats {
    /// Fresh statistics with `now` as the creation time.
    pub fn new_at(now: u64) -> (r: Self)
        ensures
            r@ =~= StatsView::fresh(now),
    {
        CacheStats {
            total_hits: 0,
            total_misses: 0,
            total_evictions: 0,
            total_entries: 0,
            memory_usage_bytes: 0,
            avg_hit_rate: HitRatio { hits: 1, total: 1 },
            last_cleanup: None,
            last_cleanup_duration: 0,
            last_cleanup_count: 0,
            creation_time: now,
            peak_memory_usage: 0,
            peak_total_entries: 0,
            cache_operations: CacheOperations::default(),
            recent_hit_rates: Vec::with_capacity(100),
            max_recent_samples: 100,
        }
    }

    /// Fresh statistics created at the current time.
    pub fn new() -> (r: Self)
        ensures
            r@ =~= StatsView::fresh(r.creation_time),
    {
        let now = now_nanos();
        Self::new_at(now)
    }

    /// The same statistics with a window of `max(max_samples, 1)` samples,
    /// emptied.
    pub fn with_max_samples(self, max_samples: usize) -> (r: Self)
        ensures
            r@ =~= (StatsView {
                max_recent_samples: if max_samples >= 1 { max_samples } else { 1 },
                recent_hit_rates: Seq::empty(),
                ..self@
            }),
    {
        let mut s = self;
        s.max_recent_samples = if max_samples >= 1 { max_samples } else { 1 };
        s.recent_hit_rates = Vec::with_capacity(s.max_recent_samples);
        s
    }

    /// Counts one hit.
    pub fn record_hit(&mut self)
        requires
            old(self)@.can_count_lookups(1),
        ensures
            final(self)@ =~= old(self)@.hits_recorded(1),
    {
        self.total_hits = self.total_hits + 1;
        self.cache_operations.get_operations = self.cache_operations.get_operations + 1;
        self.update_hit_rate();
    }

    /// Counts `count` hits.
    pub fn record_hits(&mut self, count: usize)
        requires
            old(self)@.can_count_lookups(count as int),
        ensures
            final(self)@ =~= old(self)@.hits_recorded(count as int),
    {
        self.total_hits = self.total_hits + count as u64;
        self.cache_operations.get_operations = self.cache_operations.get_operations + count as u64;
        self.update_hit_rate();
    }

    /// Counts one miss.
    pub fn record_miss(&mut self)
        requires
            old(self)@.can_count_lookups(1),
        ensures
            final(self)@ =~= old(self)@.misses_recorded(1),
    {
        self.total_misses = self.total_misses + 1;
        self.cache_operations.get_operations = self.cache_operations.get_operations + 1;
        self.update_hit_rate();
    }

    /// Counts `count` misses.
    pub fn record_misses(&mut self, count: usize)
        requires
            old(self)@.can_count_lookups(count as int),
        ensures
            final(self)@ =~= old(self)@.misses_recorded(count as int),
    {
        self.total_misses = self.total_misses + count as u64;
        self.cache_operations.get_operations = self.cache_operations.get_operations + count as u64;
        self.update_hit_rate();
    }

    /// Counts `count` evictions.
    pub fn record_eviction(&mut self, count: usize)
        requires
            old(self)@.can_count_evictions(count as int),
        ensures
            final(self)@ =~= old(self)@.evictions_recorded(count as int),
    {
        self.total_evictions = self.total_evictions + count as u64;
    }

    /// Counts one write.
    pub fn record_set(&mut self)
        requires
            old(self).cache_operations.set_operations < u64::MAX,
        ensures
            final(self)@ =~= (StatsView {
                cache_operations: CacheOperations {
                    set_operations: (old(self).cache_operations.set_operations + 1) as u64,
                    ..old(self).cache_operations
                },
                ..old(self)@
            }),
    {
        self.cache_operations.set_operations = self.cache_operations.set_operations + 1;
    }

    /// Counts one removal.
    pub fn record_remove(&mut self)
        requires
            old(self).cache_operations.remove_operations < u64::MAX,
        ensures
            final(self)@ =~= (StatsView {
                cache_operations: CacheOperations {
                    remove_operations: (old(self).cache_operations.remove_operations + 1) as u64,
                    ..old(self).cache_operations
                },
                ..old(self)@
            }),
    {
        self.cache_operations.remove_operations = self.cache_operations.remove_operations + 1;
    }

    /// Counts one clearing.
    pub fn record_clear(&mut self)
        requires
            old(self).cache_operations.clear_operations < u64::MAX,
        ensures
            final(self)@ =~= (StatsView {
                cache_operations: CacheOperations {
                    clear_operations: (old(self).cache_operations.clear_operations + 1) as u64,
                    ..old(self).cache_operations
                },
                ..old(self)@
            }),
    {
        self.cache_operations.clear_operations = self.cache_operations.clear_operations + 1;
    }

    /// Counts one refresh.
    pub fn record_refresh(&mut self)
        requires
            old(self).cache_operations.refresh_operations < u64::MAX,
        ensures
            final(self)@ =~= (StatsView {
                cache_operations: CacheOperations {
                    refresh_operations: (old(self).cache_operations.refresh_operations + 1) as u64,
                    ..old(self).cache_operations
                },
                ..old(self)@
            }),
    {
        self.cache_operations.refresh_operations = self.cache_operations.refresh_operations + 1;
    }

    /// Sets the number of entries; the peak keeps up.
    pub fn update_entries_count(&mut self, count: usize)
        ensures
            final(self)@ =~= old(self)@.entries_counted(count),
    {
        self.total_entries = count;
        if count > self.peak_total_entries {
            self.peak_total_entries = count;
        }
    }

    /// Sets the memory in use; the peak keeps up.
    pub fn update_memory_usage(&mut self, usage: u64)
        ensures
            final(self)@ =~= (StatsView {
                memory_usage_bytes: usage,
                peak_memory_usage: if usage > old(self).peak_memory_usage {
                    usage
                } else {
                    old(self).peak_memory_usage
                },
                ..old(self)@
            }),
    {
        self.memory_usage_bytes = usage;
        if usage > self.peak_memory_usage {
            self.peak_memory_usage = usage;
        }
    }

    /// Records a cleanup that removed `cleaned` entries and took `duration`
    /// nanoseconds; a cleanup that removed nothing is not recorded.
    pub fn record_cleanup(&mut self, cleaned: usize, duration: u64)
        ensures
            final(self)@ == (if cleaned > 0 {
                StatsView { last_cleanup_duration: duration, last_cleanup_count: cleaned, ..old(self)@ }
            } else {
                old(self)@
            }),
    {
        if cleaned > 0 {
            self.last_cleanup_duration = duration;
            self.last_cleanup_count = cleaned;
        }
    }

    /// Brings the average hit ratio and the window of samples up to date.
    pub fn update_hit_rate(&mut self)
        requires
            old(self)@.lookups() <= u64::MAX,
        ensures
            final(self)@ =~= old(self)@.hit_rate_updated(),
    {
        let total = self.total_hits + self.total_misses;
        if total > 0 {
            let r = HitRatio { hits: self.total_hits, total };
            self.avg_hit_rate = r;
            self.recent_hit_rates.push(r);
            if self.recent_hit_rates.len() > self.max_recent_samples {
                self.recent_hit_rates.remove(0);
            }
        }
    }

    /// Hits and misses so far.
    pub fn total_operations(&self) -> (r: u64)
        requires
            self@.lookups() <= u64::MAX,
        ensures
            r == self@.lookups(),
    {
        self.total_hits + self.total_misses
    }

    /// The time since creation, at `now` (zero if `now` is not later).
    pub fn uptime_at(&self, now: u64) -> (r: u64)
        ensures
            r == sat_sub(now, self.creation_time),
    {
        span_nanos(now, self.creation_time)
    }

    /// The time since creation, at the current time: what `uptime_at` gives
    /// for the clock's reading, which is not known here.
    pub fn uptime(&self) -> (r: u64)
        ensures
            exists|now: u64| r == #[trigger] sat_sub(now, self.creation_time),
    {
        let now = now_nanos();
        let r = self.uptime_at(now);
        assert(r == sat_sub(now, self.creation_time));
        r
    }

    /// Starts over: fresh statistics that keep the creation time and the size
    /// of the window of samples.
    pub fn reset(&mut self)
        ensures
            final(self)@ =~= (StatsView {
                creation_time: old(self).creation_time,
                max_recent_samples: old(self).max_recent_samples,
                ..StatsView::fresh(old(self).creation_time)
            }),
    {
        let creation_time = self.creation_time;
        let max_recent_samples = self.max_recent_samples;
        *self = Self::new_at(creation_time);
        self.max_recent_samples = max_recent_samples;
    }
}

} // verus!
