use redisson_cache::json::JsonText;
use redisson_cache::size::{estimate_size, SizeEstimate};

#[test]
fn size_is_json_length_plus_a_string() {
    assert_eq!(estimate_size(&"abc".to_string()), 5 + std::mem::size_of::<String>());
    assert_eq!(estimate_size(&12345u64), 5 + std::mem::size_of::<String>());
    assert_eq!(true.estimated_size(), 4 + std::mem::size_of::<String>());
}

#[test]
fn the_clock_reads_the_present() {
    let t = redisson_cache::clock::now_nanos();
    assert!(t > 1_600_000_000_000_000_000);
    assert_eq!(redisson_cache::clock::add_nanos(u64::MAX - 1, 5), u64::MAX);
    assert_eq!(redisson_cache::clock::span_nanos(3, 5), 0);
}

#[test]
fn sizes_of_numbers_flags_and_strings() {
    let s = std::mem::size_of::<String>();
    assert_eq!(0u64.estimated_size(), 1 + s);
    assert_eq!(u64::MAX.estimated_size(), 20 + s);
    assert_eq!((-42i64).estimated_size(), 3 + s);
    assert_eq!(i64::MIN.estimated_size(), 20 + s);
    assert_eq!(false.estimated_size(), 5 + s);
    assert_eq!("a\nb".to_string().estimated_size(), 6 + s);
    assert_eq!("\u{1}".to_string().estimated_size(), 8 + s);
    assert_eq!("é".to_string().estimated_size(), 4 + s);
}

#[test]
fn json_texts_of_values() {
    assert_eq!(12u64.to_json(), Ok("12".to_string()));
    assert_eq!((-7i64).to_json(), Ok("-7".to_string()));
    assert_eq!(true.to_json(), Ok("true".to_string()));
    assert_eq!("a\"b".to_string().to_json(), Ok("\"a\\\"b\"".to_string()));
}

#[test]
fn sizes_and_texts_of_json_values() {
    let v: serde_json::Value = serde_json::from_str("{\"b\":[1,true],\"a\":null}").unwrap();
    assert_eq!(v.to_json(), Ok("{\"a\":null,\"b\":[1,true]}".to_string()));
    assert_eq!(v.estimated_size(), 23 + std::mem::size_of::<String>());
}
