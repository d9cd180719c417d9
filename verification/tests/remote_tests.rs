use redisson_cache::cache::CacheError;
use redisson_cache::remote::{ClearStep, GetMapStep, ReadStep, RedisIntegratedCache, RemoveStep, WriteStep};

fn k(s: &str) -> String {
    s.to_string()
}

fn cache() -> RedisIntegratedCache<u64> {
    RedisIntegratedCache::new("users", 5_000_000_000, 10)
}

#[test]
fn remote_keys_carry_the_prefix_and_json_key() {
    let c = cache();
    assert_eq!(c.build_redis_key(&k("alice")).unwrap(), "cache:users:\"alice\"");
    assert_eq!(c.build_redis_key(&k("a\"b")).unwrap(), "cache:users:\"a\\\"b\"");
    assert_eq!(c.build_redis_key(&k("abc")), Ok("cache:users:\"abc\"".to_string()));
    assert_eq!(c.build_redis_key(&k("a\nb")).unwrap(), "cache:users:\"a\\nb\"");
    assert_eq!(c.build_redis_key(&k("\u{1f}")).unwrap(), "cache:users:\"\\u001f\"");
}

#[test]
fn a_local_hit_answers_without_the_remote_store() {
    let mut c = cache();
    assert!(matches!(c.begin_set_at(k("a"), 1, 0), Ok(WriteStep::Write(_))));
    match c.begin_get_at(&k("a"), 1) {
        ReadStep::Done(Some(v)) => assert_eq!(v, 1),
        _ => panic!("expected a local hit"),
    }
}

#[test]
fn a_local_miss_reads_through() {
    let mut c = cache();
    match c.begin_get_at(&k("b"), 0) {
        ReadStep::Fetch(key) => assert_eq!(key, "cache:users:\"b\""),
        _ => panic!("expected a remote read"),
    }
    assert_eq!(c.finish_get_at(&k("b"), Some(Ok(9)), 0), Ok(Some(9)));
    assert_eq!(c.get_local_cache().len(), 1);
    assert_eq!(c.finish_get_at(&k("c"), None, 0), Ok(None));
    assert_eq!(
        c.finish_get_at(&k("d"), Some(Err("bad".to_string())), 0),
        Err(CacheError::DeserializationError("bad".to_string()))
    );
}

#[test]
fn without_read_through_a_miss_is_final() {
    let mut c = cache().with_read_through(false);
    assert!(matches!(c.begin_get_at(&k("b"), 0), ReadStep::Done(None)));
}

#[test]
fn without_the_local_layer_nothing_is_kept_locally() {
    let mut c = cache().with_local_cache(false);
    assert!(matches!(c.begin_set_at(k("a"), 1, 0), Ok(WriteStep::Write(_))));
    assert!(c.get_local_cache().is_empty());
    assert!(matches!(c.begin_get_at(&k("a"), 0), ReadStep::Fetch(_)));
}

#[test]
fn writes_carry_whole_seconds() {
    let mut c = cache();
    match c.begin_set_at(k("a"), 7, 0) {
        Ok(WriteStep::Write(w)) => {
            assert_eq!(w.redis_key, "cache:users:\"a\"");
            assert_eq!(w.value_json, "7");
            assert_eq!(w.ttl_secs, 5);
        },
        _ => panic!("expected a remote write"),
    }
    match c.begin_set_with_ttl_at(k("a"), 8, 2_500_000_000, 0) {
        Ok(WriteStep::Write(w)) => assert_eq!(w.ttl_secs, 2),
        _ => panic!("expected a remote write"),
    }
    let mut d = cache().with_write_through(false);
    assert!(matches!(d.begin_set_at(k("a"), 7, 0), Ok(WriteStep::Done)));
    assert_eq!(d.get_local_cache().len(), 1);
}

#[test]
fn removal_and_clearing() {
    let mut c = cache();
    let _ = c.begin_set_at(k("a"), 1, 0);
    match c.begin_remove(&k("a")) {
        RemoveStep::Delete(key) => assert_eq!(key, "cache:users:\"a\""),
        _ => panic!("expected a remote delete"),
    }
    assert!(c.get_local_cache().is_empty());
    assert!(RedisIntegratedCache::<u64>::finish_remove(1));
    assert!(!RedisIntegratedCache::<u64>::finish_remove(0));
    match c.begin_clear() {
        ClearStep::DeleteMatching(p) => assert_eq!(p, "cache:users:*"),
        ClearStep::Done => panic!("expected a remote clear"),
    }
    let mut d = cache().with_write_through(false);
    assert!(matches!(d.begin_remove(&k("a")), RemoveStep::Done(true)));
    assert!(matches!(d.begin_clear(), ClearStep::Done));
}

#[test]
fn refresh_follows_the_remote_store() {
    let mut c = cache();
    assert_eq!(c.finish_refresh_at(&k("a"), Some(Ok(3)), 0), Ok(true));
    assert_eq!(c.get_local_cache().len(), 1);
    assert_eq!(c.finish_refresh_at(&k("a"), None, 0), Ok(false));
    assert!(c.get_local_cache().is_empty());
}

#[test]
fn batch_reads_fetch_only_what_is_missing() {
    let mut c = cache();
    let _ = c.begin_set_at(k("a"), 1, 0);
    let keys = vec![k("a"), k("b"), k("c")];
    match c.begin_get_map_at(&keys, 0) {
        GetMapStep::Fetch { found, missing, redis_keys } => {
            assert_eq!(found, vec![(k("a"), 1)]);
            assert_eq!(missing, vec![k("b"), k("c")]);
            assert_eq!(redis_keys, vec![k("cache:users:\"b\""), k("cache:users:\"c\"")]);
            let all = c.finish_get_map_at(found, missing, vec![Some(2), None], 0);
            assert_eq!(all, vec![(k("a"), 1), (k("b"), 2)]);
            assert_eq!(c.get_local_cache().len(), 2);
        },
        _ => panic!("expected a remote read"),
    }
    match c.begin_get_map_at(&[k("a"), k("b")], 0) {
        GetMapStep::Done(found) => assert_eq!(found, vec![(k("a"), 1), (k("b"), 2)]),
        _ => panic!("expected local answers"),
    }
}

#[test]
fn batch_writes() {
    let mut c = cache();
    let ws = c.begin_set_multi_at(vec![(k("a"), 1), (k("b"), 2)], 0).unwrap();
    assert_eq!(ws.len(), 2);
    assert_eq!(ws[1].redis_key, "cache:users:\"b\"");
    assert_eq!(ws[1].value_json, "2");
    assert_eq!(c.get_local_cache().len(), 2);
    assert!(c.begin_set_multi_at(vec![], 0).unwrap().is_empty());
}

#[derive(Clone)]
struct Unserializable;

impl serde::Serialize for Unserializable {
    fn serialize<S: serde::Serializer>(&self, _serializer: S) -> Result<S::Ok, S::Error> {
        Err(<S::Error as serde::ser::Error>::custom("refused"))
    }
}

impl redisson_cache::json::JsonText for Unserializable {
    fn to_json(&self) -> Result<String, String> {
        serde_json::to_string(self).map_err(|e| e.to_string())
    }
}

impl redisson_cache::size::SizeEstimate for Unserializable {
    fn estimated_size(&self) -> usize {
        1
    }
}

#[test]
fn a_value_without_json_fails_the_remote_write() {
    let mut c: RedisIntegratedCache<Unserializable> = RedisIntegratedCache::new("u", 1_000_000_000, 4);
    match c.begin_set_at(k("a"), Unserializable, 0) {
        Err(CacheError::SerializationError(m)) => assert_eq!(m, "refused"),
        _ => panic!("expected a serialization error"),
    }
    assert_eq!(c.get_local_cache().len(), 1);
    assert_eq!(redisson_cache::size::estimate_size(&Unserializable), std::mem::size_of_val(&Unserializable));
}
