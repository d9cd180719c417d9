use redisson_cache::entry::CachedValue;

#[test]
fn new_at_sets_every_field() {
    let c = CachedValue::new_at(7u64, 100, 12, 1_000);
    assert_eq!(c.value, 7);
    assert_eq!(c.expiry, 1_100);
    assert_eq!(c.created, 1_000);
    assert_eq!(c.hits, 0);
    assert_eq!(c.size_bytes, 12);
    assert_eq!(c.last_accessed, 1_000);
    assert!(c.metadata.is_none());
}

#[test]
fn expiry_saturates_at_the_far_future() {
    let c = CachedValue::new_at(1u64, u64::MAX, 0, 5);
    assert_eq!(c.expiry, u64::MAX);
    assert!(!c.is_expired());
}

#[test]
fn an_entry_is_alive_up_to_its_expiry() {
    let c = CachedValue::new_at("v".to_string(), 10, 0, 100);
    assert!(!c.is_expired_at(100));
    assert!(!c.is_expired_at(110));
    assert!(c.is_expired_at(111));
}

#[test]
fn remaining_ttl_counts_down_to_none() {
    let c = CachedValue::new_at(0u64, 10, 0, 100);
    assert_eq!(c.remaining_ttl_at(100), Some(10));
    assert_eq!(c.remaining_ttl_at(109), Some(1));
    assert_eq!(c.remaining_ttl_at(110), None);
    assert_eq!(c.remaining_ttl_at(500), None);
}

#[test]
fn age_is_zero_before_creation() {
    let c = CachedValue::new_at(0u64, 10, 0, 100);
    assert_eq!(c.age_at(150), 50);
    assert_eq!(c.age_at(40), 0);
}

#[test]
fn access_counts_and_reset() {
    let mut c = CachedValue::new_at(0u64, 10, 0, 100);
    c.record_access_at(120);
    c.record_access_at(130);
    assert_eq!(c.hits, 2);
    assert_eq!(c.last_accessed, 130);
    c.reset_hits();
    assert_eq!(c.hits, 0);
    assert_eq!(c.last_accessed, 130);
}

#[test]
fn ttl_and_value_updates() {
    let mut c = CachedValue::new_at(1u64, 10, 3, 100);
    c.update_ttl_at(50, 200);
    assert_eq!(c.expiry, 250);
    assert_eq!(c.created, 100);
    c.update_value_at(2, 9, 300);
    assert_eq!(c.value, 2);
    assert_eq!(c.size_bytes, 9);
    assert_eq!(c.last_accessed, 300);
    assert_eq!(c.expiry, 250);
}

#[test]
fn clock_based_constructors() {
    let c = CachedValue::new(5u64, 1_000, 4);
    assert_eq!(c.expiry, c.created + 1_000);
    assert_eq!(c.last_accessed, c.created);
    let m = CachedValue::new_with_metadata(5u64, 1_000, 4, serde_json::Value::Bool(true));
    assert_eq!(m.metadata, Some(serde_json::Value::Bool(true)));
    assert!(m.remaining_ttl().is_some());
    let mut r = CachedValue::new(1u64, 10, 1);
    r.record_access();
    assert_eq!(r.hits, 1);
    r.update_value(3, 2);
    assert_eq!(r.value, 3);
    r.update_ttl(u64::MAX);
    assert_eq!(r.expiry, u64::MAX);
}
