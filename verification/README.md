# redisson_cache

Caches with verified behaviour, written in Verus.

- `src/` is the verified library. A `LocalCache` keeps values under string
  keys with expiry times, in least-recently-used order up to a capacity
  (the order itself is kept by the `lru` crate), and counts hits, misses and
  evictions in `CacheStats`. A `RedisIntegratedCache` puts a local cache in
  front of a Redis store: each of its operations is a decision taken before
  the remote call (what to read, write or delete) and, where the answer
  matters, a decision taken on the answer. `laws` states what holds across
  operations: a value written is read back until it expires, a full cache
  drops its least recently used entry, a cleanup keeps exactly the live
  entries, and so on. Time is nanoseconds; the functions whose names end in
  `_at` take the current time as an argument, the others read the clock.
- `app/` is the thin layer around it: locks and shared statistics, the
  background cleanup thread, the Redis connection, and the floating-point
  rates of the statistics.
- `tests/` runs the library on concrete values.
