use redisson_cache::manager::{total_cleaned, LocalCacheManager};

#[test]
fn new_registry_settings() {
    let m: LocalCacheManager<u32> = LocalCacheManager::new(5, 0);
    assert_eq!(m.default_ttl(), 5);
    assert_eq!(m.default_max_size(), 1);
    assert_eq!(m.cleanup_interval(), 60_000_000_000);
    assert_eq!(m.len(), 0);
    let m = m.with_cleanup_interval(7).with_max_size(0);
    assert_eq!(m.cleanup_interval(), 7);
    assert_eq!(m.default_max_size(), 1);
    let m = m.with_max_size(30);
    assert_eq!(m.default_max_size(), 30);
}

#[test]
fn the_first_cache_under_a_name_stays() {
    let mut m: LocalCacheManager<u32> = LocalCacheManager::new(5, 10);
    assert!(m.insert_cache_if_absent("a", 1));
    assert!(!m.insert_cache_if_absent("a", 2));
    assert!(m.insert_cache_if_absent("b", 3));
    assert_eq!(m.get_cache("a"), Some(&1));
    assert_eq!(m.get_cache("b"), Some(&3));
    assert_eq!(m.get_cache("c"), None);
    assert_eq!(m.len(), 2);
    assert_eq!(*m.cache_at(1), 3);
}

#[test]
fn removing_and_clearing_caches() {
    let mut m: LocalCacheManager<u32> = LocalCacheManager::new(5, 10);
    m.insert_cache_if_absent("a", 1);
    m.insert_cache_if_absent("b", 2);
    assert!(m.remove_cache("a"));
    assert!(!m.remove_cache("a"));
    assert_eq!(m.get_cache("a"), None);
    assert_eq!(m.get_cache("b"), Some(&2));
    m.clear_all();
    assert_eq!(m.len(), 0);
}

#[test]
fn a_new_cache_gets_the_registry_settings() {
    let m: LocalCacheManager<u32> = LocalCacheManager::new(5, 0);
    let c: redisson_cache::local::LocalCache<u64> = m.new_cache("x");
    assert_eq!(c.ttl(), 5);
    assert!(c.is_empty());
    assert_eq!(c.get_stats().name, "x");
    assert_eq!(c.stats().total_hits, 0);
}

#[test]
fn cleanup_totals() {
    assert_eq!(total_cleaned(&[]), Some(0));
    assert_eq!(total_cleaned(&[1, 2, 3]), Some(6));
    assert_eq!(total_cleaned(&[usize::MAX, 1]), None);
    assert_eq!(total_cleaned(&[usize::MAX, 0]), Some(usize::MAX));
}

#[test]
fn a_removed_name_is_gone_and_others_stay() {
    let mut m: LocalCacheManager<u32> = LocalCacheManager::new(5, 10);
    m.insert_cache_if_absent("a", 1);
    m.insert_cache_if_absent("b", 2);
    m.insert_cache_if_absent("c", 3);
    assert!(m.remove_cache("b"));
    assert_eq!(m.get_cache("b"), None);
    assert_eq!(m.get_cache("a"), Some(&1));
    assert_eq!(m.get_cache("c"), Some(&3));
    assert!(m.insert_cache_if_absent("b", 4));
    assert_eq!(m.get_cache("b"), Some(&4));
}

#[test]
fn get_or_insert_keeps_the_first_cache() {
    let mut m: LocalCacheManager<u32> = LocalCacheManager::new(5, 10);
    assert_eq!(*m.get_or_insert_cache("a", 1), 1);
    assert_eq!(*m.get_or_insert_cache("a", 2), 1);
    assert_eq!(m.len(), 1);
}
