//! The operations that every cache offers, and the errors they report.
use vstd::prelude::*;

verus! {

/// Why a cache operation failed.
#[derive(Clone, Debug, PartialEq, Eq)]
pub enum CacheError {
    /// A key or a value could not be turned into JSON text.
    SerializationError(String),
    /// A stored text could not be read back as a value.
    DeserializationError(String),
    /// The remote store reported an error.
    RemoteError(String),
}

/// A cache from keys `K` to values `V`. Lifetimes are nanoseconds.
pub trait Cache<K, V> {
    /// The cache is internally consistent.
    spec fn valid(&self) -> bool;

    /// The cache is consistent and a lookup of `key` can be counted without
    /// a counter overflowing.
    spec fn can_get(&self, key: K) -> bool;

    /// The cache is consistent and a write can be counted.
    spec fn can_set(&self) -> bool;

    /// The cache is consistent and dropping all its entries can be counted.
    spec fn can_clear(&self) -> bool;

    /// The value under `key`, if there is a live one.
    fn get(&mut self, key: &K) -> (r: Result<Option<V>, CacheError>)
        requires
            old(self).can_get(*key),
    ;

    /// Puts `value` under `key`, to live the cache's lifetime.
    fn set(&mut self, key: K, value: V) -> (r: Result<(), CacheError>)
        requires
            old(self).can_set(),
    ;

    /// Puts `value` under `key`, to live `ttl` nanoseconds.
    fn set_with_ttl(&mut self, key: K, value: V, ttl: u64) -> (r: Result<(), CacheError>)
        requires
            old(self).can_set(),
    ;

    /// Removes the entry under `key`; tells whether there was one.
    fn remove(&mut self, key: &K) -> (r: Result<bool, CacheError>)
        requires
            old(self).valid(),
    ;

    /// Removes every entry.
    fn clear(&mut self) -> (r: Result<(), CacheError>)
        requires
            old(self).can_clear(),
    ;

    /// Gives the entry under `key` a new lifetime; tells whether it was live.
    fn refresh(&mut self, key: &K) -> (r: Result<bool, CacheError>)
        requires
            old(self).valid(),
    ;
}

} // verus!
