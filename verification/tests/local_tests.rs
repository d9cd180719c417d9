use redisson_cache::cache::Cache;
use redisson_cache::local::LocalCache;
use redisson_cache::stats::CacheStats;

fn cache(capacity: usize) -> LocalCache<u64> {
    LocalCache::new("test".to_string(), 100, capacity, CacheStats::new_at(0))
}

fn k(s: &str) -> String {
    s.to_string()
}

#[test]
fn read_after_write() {
    let mut c = cache(4);
    c.set_sized_at(k("a"), 1, 8, 10);
    assert_eq!(c.get_at(&k("a"), 10), Some(1));
    assert_eq!(c.get_at(&k("a"), 110), Some(1));
    assert_eq!(c.stats().total_hits, 2);
    assert_eq!(c.len(), 1);
}

#[test]
fn an_expired_entry_is_a_miss_and_is_dropped() {
    let mut c = cache(4);
    c.set_sized_at(k("a"), 1, 8, 10);
    assert_eq!(c.get_at(&k("a"), 111), None);
    assert_eq!(c.len(), 0);
    assert_eq!(c.stats().total_misses, 1);
}

#[test]
fn a_missing_key_is_a_miss() {
    let mut c = cache(4);
    assert_eq!(c.get_at(&k("zz"), 0), None);
    assert_eq!(c.stats().total_misses, 1);
    assert_eq!(c.stats().cache_operations.get_operations, 1);
}

#[test]
fn capacity_is_at_least_one() {
    let mut c = cache(0);
    c.set_sized_at(k("a"), 1, 0, 0);
    c.set_sized_at(k("b"), 2, 0, 0);
    assert_eq!(c.len(), 1);
    assert_eq!(c.get_at(&k("a"), 0), None);
    assert_eq!(c.get_at(&k("b"), 0), Some(2));
}

#[test]
fn a_full_cache_drops_the_least_recently_used() {
    let mut c = cache(2);
    c.set_sized_at(k("a"), 1, 0, 0);
    c.set_sized_at(k("b"), 2, 0, 0);
    assert_eq!(c.get_at(&k("a"), 0), Some(1));
    c.set_sized_at(k("c"), 3, 0, 0);
    assert!(!c.contains_at(&k("b"), 0));
    assert!(c.contains_at(&k("a"), 0));
    assert!(c.contains_at(&k("c"), 0));
    assert_eq!(c.stats().total_evictions, 0);
}

#[test]
fn replacing_a_key_counts_an_eviction() {
    let mut c = cache(2);
    c.set_sized_at(k("a"), 1, 0, 0);
    c.set_sized_at(k("a"), 5, 0, 0);
    assert_eq!(c.get_at(&k("a"), 0), Some(5));
    assert_eq!(c.stats().total_evictions, 1);
    assert_eq!(c.stats().total_entries, 1);
    c.set_with_ttl_sized_at(k("b"), 2, 0, 5, 0);
    c.set_with_ttl_sized_at(k("b"), 3, 0, 5, 0);
    assert_eq!(c.stats().total_evictions, 2);
    assert_eq!(c.stats().total_entries, 1);
    assert_eq!(c.get_ttl_at(&k("b"), 1), Some(4));
}

#[test]
fn remove_and_clear() {
    let mut c = cache(4);
    c.set_sized_at(k("a"), 1, 0, 0);
    c.set_sized_at(k("b"), 2, 0, 0);
    assert_eq!(c.remove(&k("a")), Ok(true));
    assert_eq!(c.remove(&k("a")), Ok(false));
    assert_eq!(c.get_at(&k("a"), 0), None);
    assert_eq!(c.clear(), Ok(()));
    assert!(c.is_empty());
    assert_eq!(c.stats().total_evictions, 1);
    assert_eq!(c.stats().total_entries, 0);
    assert_eq!(c.clear(), Ok(()));
    assert_eq!(c.stats().total_evictions, 1);
}

#[test]
fn refresh_extends_a_live_entry_only() {
    let mut c = cache(4);
    c.set_sized_at(k("a"), 1, 0, 0);
    assert!(c.refresh_at(&k("a"), 50));
    assert_eq!(c.get_ttl_at(&k("a"), 50), Some(100));
    assert!(!c.refresh_at(&k("a"), 151));
    assert_eq!(c.len(), 1);
    assert!(!c.refresh_at(&k("nope"), 0));
}

#[test]
fn contains_and_ttl_do_not_count() {
    let mut c = cache(4);
    c.set_sized_at(k("a"), 1, 0, 0);
    assert!(c.contains_at(&k("a"), 100));
    assert!(!c.contains_at(&k("a"), 101));
    assert_eq!(c.get_ttl_at(&k("a"), 100), None);
    assert_eq!(c.get_ttl_at(&k("a"), 30), Some(70));
    assert_eq!(c.stats().total_hits + c.stats().total_misses, 0);
}

#[test]
fn cleanup_drops_exactly_the_expired() {
    let mut c = cache(8);
    c.set_with_ttl_sized_at(k("a"), 1, 0, 10, 0);
    c.set_with_ttl_sized_at(k("b"), 2, 0, 50, 0);
    c.set_with_ttl_sized_at(k("c"), 3, 0, 20, 0);
    assert_eq!(c.cleanup_at(19), 1);
    assert_eq!(c.len(), 2);
    assert!(c.contains_at(&k("b"), 19));
    assert!(c.contains_at(&k("c"), 19));
    assert_eq!(c.stats().total_evictions, 1);
    assert_eq!(c.stats().total_entries, 2);
    assert_eq!(c.cleanup_at(20), 1);
    assert_eq!(c.len(), 1);
    assert!(c.contains_at(&k("b"), 20));
    assert_eq!(c.cleanup_at(20), 0);
}

#[test]
fn summary_of_entries() {
    let mut c = cache(8);
    c.set_with_ttl_sized_at(k("a"), 1, 10, 10, 0);
    c.set_with_ttl_sized_at(k("b"), 2, 20, 50, 0);
    assert_eq!(c.get_at(&k("b"), 5), Some(2));
    let s = c.get_stats_at(10);
    assert_eq!(s.total_entries, 2);
    assert_eq!(s.active_entries, 1);
    assert_eq!(s.expired_entries, 1);
    assert_eq!(s.total_hits, 1);
    assert_eq!(s.total_size_bytes, 30);
    assert_eq!(s.name, "test");
}

#[test]
fn batch_lookup_counts_distinct_hits() {
    let mut c = cache(8);
    c.set_sized_at(k("a"), 1, 0, 0);
    c.set_with_ttl_sized_at(k("b"), 2, 0, 1, 0);
    let keys = vec![k("a"), k("b"), k("a"), k("x")];
    let r = c.get_map_at(&keys, 50);
    assert_eq!(r, vec![(k("a"), 1)]);
    assert_eq!(c.stats().total_hits, 1);
    assert_eq!(c.stats().total_misses, 3);
    assert_eq!(c.len(), 1);
    assert_eq!(c.get_stats_at(50).total_hits, 2);
}

#[test]
fn batch_write_counts_replacements() {
    let mut c = cache(8);
    c.set_sized_at(k("a"), 1, 0, 0);
    let n = c.set_multi_at(vec![(k("a"), 10), (k("b"), 20), (k("b"), 30)], 5);
    assert_eq!(n, 2);
    assert_eq!(c.get_at(&k("a"), 5), Some(10));
    assert_eq!(c.get_at(&k("b"), 5), Some(30));
    assert_eq!(c.stats().total_evictions, 2);
    assert_eq!(c.stats().total_entries, 2);
}

#[test]
fn trait_operations_use_the_clock() {
    let mut c: LocalCache<u64> = LocalCache::new("t".to_string(), 60_000_000_000, 4, CacheStats::new());
    assert_eq!(c.set(k("a"), 1), Ok(()));
    assert_eq!(c.get(&k("a")), Ok(Some(1)));
    assert!(c.contains(&k("a")));
    assert!(c.get_ttl(&k("a")).is_some());
    assert_eq!(c.refresh(&k("a")), Ok(true));
    assert_eq!(c.set_with_ttl(k("b"), 2, 0), Ok(()));
    assert_eq!(c.cleanup(), 1);
    assert_eq!(c.get(&k("b")), Ok(None));
    assert_eq!(c.get_map(&[k("a")]), vec![(k("a"), 1)]);
    assert_eq!(c.set_multi(vec![(k("a"), 3)]), 1);
    assert_eq!(c.get_stats().total_entries, 1);
    assert_eq!(c.ttl(), 60_000_000_000);
}

#[test]
fn room_checks() {
    let mut c = cache(2);
    assert!(c.room_to_get(&k("a")));
    assert!(c.room_to_evict(5));
    let mut s = CacheStats::new_at(0);
    s.total_evictions = u64::MAX - 1;
    c.swap_stats(&mut s);
    assert!(c.room_to_evict(1));
    assert!(!c.room_to_evict(2));
    c.swap_stats(&mut s);
    assert_eq!(c.stats().total_evictions, 0);
}

#[test]
fn string_values_estimate_their_size() {
    let mut c: LocalCache<String> = LocalCache::new("s".to_string(), 100, 2, CacheStats::new_at(0));
    c.set_at(k("a"), "abc".to_string(), 0);
    let s = c.get_stats_at(0);
    assert_eq!(s.total_size_bytes, 5 + std::mem::size_of::<String>());
}

#[test]
fn a_set_stores_the_estimated_size() {
    let mut c = cache(4);
    c.set_at(k("a"), 12345, 0);
    c.set_with_ttl_at(k("b"), 7, 50, 0);
    assert_eq!(c.get_stats_at(0).total_size_bytes, 6 + 2 * std::mem::size_of::<String>());
}
