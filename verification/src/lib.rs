//! Verified caches: a local least-recently-used cache with expiring entries
//! and usage statistics, and the decisions of a cache that reads through to
//! and writes through to a remote Redis store.
//!
//! - `clock`: time as nanoseconds, and the reading of the system clock.
//! - `entry`: a cached value with its expiry, creation time and hits.
//! - `stats`: the statistics a cache counts.
//! - `lru_index`: the `lru::LruCache` that orders a local cache.
//! - `local`: the local cache.
//! - `remote`: the cache in front of Redis, one decision at a time.
//! - `cache`: the operations every cache offers.
//! - `size`, `json`: size estimates and JSON texts, from `serde_json`.
//! - `laws`: properties that hold across operations.
use vstd::prelude::*;

pub mod clock;
pub mod entry;
pub mod json;
pub mod lru_index;
pub mod stats;
pub mod size;
pub mod local;
pub mod cache;
pub mod laws;
pub mod remote;
pub mod manager;

pub use cache::{Cache, CacheError};
pub use clock::{add_nanos, now_nanos, span_nanos};
pub use entry::CachedValue;
pub use local::LocalCache;
pub use remote::RedisIntegratedCache;
pub use json::JsonText;
pub use size::{estimate_size, SizeEstimate};
pub use stats::{CacheEntryStats, CacheOperations, CacheStats, HitRatio};

verus! {
} // verus!
