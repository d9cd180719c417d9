use redisson_cache::stats::{CacheEntryStats, CacheOperations, CacheStats, HitRatio};

#[test]
fn fresh_statistics() {
    let s = CacheStats::new_at(42);
    assert_eq!(s.total_hits, 0);
    assert_eq!(s.total_misses, 0);
    assert_eq!(s.avg_hit_rate, HitRatio { hits: 1, total: 1 });
    assert_eq!(s.creation_time, 42);
    assert_eq!(s.max_recent_samples, 100);
    assert!(s.recent_hit_rates.is_empty());
    assert!(s.last_cleanup.is_none());
}

#[test]
fn operations_default_to_zero() {
    let o = CacheOperations::default();
    assert_eq!(o.get_operations, 0);
    assert_eq!(o.set_operations, 0);
    assert_eq!(o.remove_operations, 0);
    assert_eq!(o.clear_operations, 0);
    assert_eq!(o.refresh_operations, 0);
}

#[test]
fn hits_and_misses_update_the_ratio_and_window() {
    let mut s = CacheStats::new_at(0);
    s.record_hit();
    assert_eq!(s.avg_hit_rate, HitRatio { hits: 1, total: 1 });
    s.record_miss();
    assert_eq!(s.avg_hit_rate, HitRatio { hits: 1, total: 2 });
    s.record_hits(2);
    s.record_misses(4);
    assert_eq!(s.total_hits, 3);
    assert_eq!(s.total_misses, 5);
    assert_eq!(s.cache_operations.get_operations, 8);
    assert_eq!(s.total_operations(), 8);
    assert_eq!(
        s.recent_hit_rates,
        vec![
            HitRatio { hits: 1, total: 1 },
            HitRatio { hits: 1, total: 2 },
            HitRatio { hits: 3, total: 4 },
            HitRatio { hits: 3, total: 8 },
        ]
    );
}

#[test]
fn the_window_drops_its_oldest_sample() {
    let mut s = CacheStats::new_at(0).with_max_samples(2);
    s.record_hit();
    s.record_miss();
    s.record_hit();
    assert_eq!(s.recent_hit_rates, vec![HitRatio { hits: 1, total: 2 }, HitRatio { hits: 2, total: 3 }]);
}

#[test]
fn a_window_holds_at_least_one_sample() {
    let s = CacheStats::new_at(0).with_max_samples(0);
    assert_eq!(s.max_recent_samples, 1);
}

#[test]
fn zero_counts_leave_the_window_alone() {
    let mut s = CacheStats::new_at(0);
    s.record_hits(0);
    s.record_misses(0);
    assert!(s.recent_hit_rates.is_empty());
    assert_eq!(s.avg_hit_rate, HitRatio { hits: 1, total: 1 });
}

#[test]
fn operation_counters() {
    let mut s = CacheStats::new_at(0);
    s.record_eviction(3);
    s.record_set();
    s.record_remove();
    s.record_clear();
    s.record_refresh();
    assert_eq!(s.total_evictions, 3);
    assert_eq!(s.cache_operations.set_operations, 1);
    assert_eq!(s.cache_operations.remove_operations, 1);
    assert_eq!(s.cache_operations.clear_operations, 1);
    assert_eq!(s.cache_operations.refresh_operations, 1);
}

#[test]
fn peaks_keep_the_highest_value() {
    let mut s = CacheStats::new_at(0);
    s.update_entries_count(5);
    s.update_entries_count(2);
    assert_eq!(s.total_entries, 2);
    assert_eq!(s.peak_total_entries, 5);
    s.update_memory_usage(100);
    s.update_memory_usage(10);
    assert_eq!(s.memory_usage_bytes, 10);
    assert_eq!(s.peak_memory_usage, 100);
}

#[test]
fn uptime_counts_from_creation() {
    let s = CacheStats::new_at(1_000);
    assert_eq!(s.uptime_at(1_500), 500);
    assert_eq!(s.uptime_at(10), 0);
    let t = CacheStats::new();
    assert!(t.uptime() < 60_000_000_000);
}

#[test]
fn reset_keeps_creation_time_and_window_size() {
    let mut s = CacheStats::new_at(77).with_max_samples(5);
    s.record_hit();
    s.record_eviction(2);
    s.update_entries_count(9);
    s.reset();
    assert_eq!(s.creation_time, 77);
    assert_eq!(s.max_recent_samples, 5);
    assert_eq!(s.total_hits, 0);
    assert_eq!(s.total_evictions, 0);
    assert_eq!(s.peak_total_entries, 0);
    assert!(s.recent_hit_rates.is_empty());
}

#[test]
fn entry_stats_start_empty() {
    let e = CacheEntryStats::new("c".to_string());
    assert_eq!(e.total_entries, 0);
    assert_eq!(e.active_entries, 0);
    assert_eq!(e.expired_entries, 0);
    assert_eq!(e.total_hits, 0);
    assert_eq!(e.total_size_bytes, 0);
    assert_eq!(e.name, "c");
}

#[test]
fn a_cleanup_is_recorded_only_when_it_removed_something() {
    let mut s = CacheStats::new_at(0);
    s.record_cleanup(0, 99);
    assert_eq!(s.last_cleanup_count, 0);
    assert_eq!(s.last_cleanup_duration, 0);
    s.record_cleanup(3, 99);
    assert_eq!(s.last_cleanup_count, 3);
    assert_eq!(s.last_cleanup_duration, 99);
}

#[test]
fn hit_ratios_stay_between_zero_and_one() {
    let mut s = CacheStats::new_at(0);
    s.record_hits(3);
    s.record_misses(2);
    s.record_miss();
    for r in s.recent_hit_rates.iter().chain(std::iter::once(&s.avg_hit_rate)) {
        assert!(r.total > 0 && r.hits <= r.total);
    }
    assert_eq!(s.avg_hit_rate, HitRatio { hits: 3, total: 6 });
}
