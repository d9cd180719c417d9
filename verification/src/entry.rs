//! One cached entry: a value with its expiry time, creation time, hit count,
//! estimated size and last access time.
use vstd::prelude::*;
use crate::clock::{add_nanos, now_nanos, sat_add, sat_sub, span_nanos};

verus! {

/// A cached value. All times are nanoseconds on the library's clock (see
/// `clock`); the entry is alive up to and including the instant `expiry`.
pub struct CachedValue<T> {
    pub value: T,
    pub expiry: u64,
    pub created: u64,
    pub hits: u64,
    pub size_bytes: usize,
    pub last_accessed: u64,
    pub metadata: Option<serde_json::Value>,
}

impl<T> CachedValue<T> {
    /// Whether the entry has expired at the instant `now`.
    pub open spec fn expired_at(&self, now: u64) -> bool {
        now > self.expiry
    }

    /// The time left before `expiry` at the instant `now`; `None` once `now`
    /// has reached `expiry`.
    pub open spec fn ttl_left_at(&self, now: u64) -> Option<u64> {
        if self.expiry > now {
            Some((self.expiry - now) as u64)
        } else {
            None
        }
    }

    /// An entry created at `now` that lives for `ttl` nanoseconds.
    pub fn new_at(value: T, ttl: u64, size_bytes: usize, now: u64) -> (r: Self)
        ensures
            r.value == value,
            r.expiry == sat_add(now, ttl),
            r.created == now,
            r.hits == 0,
            r.size_bytes == size_bytes,
            r.last_accessed == now,
            r.metadata is None,
    {
        CachedValue {
            value,
            expiry: add_nanos(now, ttl),
            created: now,
            hits: 0,
            size_bytes,
            last_accessed: now,
            metadata: None,
        }
    }

    /// An entry created now that lives for `ttl` nanoseconds.
    pub fn new(value: T, ttl: u64, size_bytes: usize) -> (r: Self)
        ensures
            r.value == value,
            r.expiry == sat_add(r.created, ttl),
            r.hits == 0,
            r.size_bytes == size_bytes,
            r.last_accessed == r.created,
            r.metadata is None,
    {
        let now = now_nanos();
        Self::new_at(value, ttl, size_bytes, now)
    }

    /// As `new`, with `metadata` attached.
    pub fn new_with_metadata(value: T, ttl: u64, size_bytes: usize, metadata: serde_json::Value) -> (r: Self)
        ensures
            r.value == value,
            r.expiry == sat_add(r.created, ttl),
            r.hits == 0,
            r.size_bytes == size_bytes,
            r.last_accessed == r.created,
            r.metadata == Some(metadata),
    {
        let mut cached = Self::new(value, ttl, size_bytes);
        cached.metadata = Some(metadata);
        cached
    }

    /// Whether the entry has expired at `now`: `now` is later than `expiry`.
    pub fn is_expired_at(&self, now: u64) -> (r: bool)
        ensures
            r == (now > self.expiry),
    {
        now > self.expiry
    }

    /// Whether the entry has expired at the current time: what `is_expired_at`
    /// gives for the clock's reading. The reading itself is not known here, so
    /// the result is that of some reading; an entry whose expiry is
    /// `u64::MAX` never has expired.
    pub fn is_expired(&self) -> (r: bool)
        ensures
            exists|now: u64| r == #[trigger] self.expired_at(now),
    {
        let now = now_nanos();
        let r = self.is_expired_at(now);
        assert(r == self.expired_at(now));
        r
    }

    /// The time left before `expiry`, counted from `now`; `None` once `now`
    /// has reached `expiry`.
    pub fn remaining_ttl_at(&self, now: u64) -> (r: Option<u64>)
        ensures
            r == (if self.expiry > now { Some((self.expiry - now) as u64) } else { None::<u64> }),
    {
        if self.expiry > now {
            Some(self.expiry - now)
        } else {
            None
        }
    }

    /// The time left before `expiry`, counted from the current time: what
    /// `remaining_ttl_at` gives for the clock's reading, which is not known
    /// here.
    pub fn remaining_ttl(&self) -> (r: Option<u64>)
        ensures
            exists|now: u64| r == #[trigger] self.ttl_left_at(now),
    {
        let now = now_nanos();
        let r = self.remaining_ttl_at(now);
        assert(r == self.ttl_left_at(now));
        r
    }

    /// The time since creation, at `now` (zero if `now` is not later).
    pub fn age_at(&self, now: u64) -> (r: u64)
        ensures
            r == sat_sub(now, self.created),
    {
        span_nanos(now, self.created)
    }

    /// The time since creation, at the current time: what `age_at` gives for
    /// the clock's reading, which is not known here.
    pub fn age(&self) -> (r: u64)
        ensures
            exists|now: u64| r == #[trigger] sat_sub(now, self.created),
    {
        let now = now_nanos();
        let r = self.age_at(now);
        assert(r == sat_sub(now, self.created));
        r
    }

    /// Counts one access at `now`.
    pub fn record_access_at(&mut self, now: u64)
        requires
            old(self).hits < u64::MAX,
        ensures
            final(self).hits == old(self).hits + 1,
            final(self).last_accessed == now,
            final(self).value == old(self).value,
            final(self).expiry == old(self).expiry,
            final(self).created == old(self).created,
            final(self).size_bytes == old(self).size_bytes,
            final(self).metadata == old(self).metadata,
    {
        self.hits = self.hits + 1;
        self.last_accessed = now;
    }

    /// Counts one access at the current time.
    pub fn record_access(&mut self)
        requires
            old(self).hits < u64::MAX,
        ensures
            final(self).hits == old(self).hits + 1,
            final(self).value == old(self).value,
            final(self).expiry == old(self).expiry,
            final(self).created == old(self).created,
            final(self).size_bytes == old(self).size_bytes,
            final(self).metadata == old(self).metadata,
    {
        let now = now_nanos();
        self.record_access_at(now);
    }

    /// Sets the hit count back to zero.
    pub fn reset_hits(&mut self)
        ensures
            *final(self) == (CachedValue { hits: 0, ..*old(self) }),
    {
        self.hits = 0;
    }

    /// Makes the entry live for `ttl` nanoseconds from `now`.
    pub fn update_ttl_at(&mut self, ttl: u64, now: u64)
        ensures
            *final(self) == (CachedValue { expiry: sat_add(now, ttl), ..*old(self) }),
    {
        self.expiry = add_nanos(now, ttl);
    }

    /// Makes the entry live for `ttl` nanoseconds from the current time:
    /// what `update_ttl_at` does for the clock's reading, which is not known
    /// here.
    pub fn update_ttl(&mut self, ttl: u64)
        ensures
            exists|now: u64| *final(self) == (CachedValue { expiry: #[trigger] sat_add(now, ttl), ..*old(self) }),
    {
        let now = now_nanos();
        self.update_ttl_at(ttl, now);
        assert(*self == (CachedValue { expiry: sat_add(now, ttl), ..*old(self) }));
    }

    /// Replaces the value and its size, as an access at `now`.
    pub fn update_value_at(&mut self, value: T, size_bytes: usize, now: u64)
        ensures
            *final(self) == (CachedValue { value, size_bytes, last_accessed: now, ..*old(self) }),
    {
        self.value = value;
        self.size_bytes = size_bytes;
        self.last_accessed = now;
    }

    /// Replaces the value and its size, as an access at the current time.
    pub fn update_value(&mut self, value: T, size_bytes: usize)
        ensures
            *final(self) == (CachedValue {
                value,
                size_bytes,
                last_accessed: final(self).last_accessed,
                ..*old(self)
            }),
    {
        let now = now_nanos();
        self.update_value_at(value, size_bytes, now);
    }
}

} // verus!
