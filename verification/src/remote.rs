//! A cache in front of a remote key-value store (Redis): a local cache
//! read and written first, and the remote store read on a local miss
//! ("read-through") and written on every write ("write-through").
//!
//! The remote store is reached by the caller. Each operation is split into
//! the decision taken before the remote call, which says what to send, and,
//! where the answer matters, the decision taken on the answer.
use vstd::prelude::*;
use crate::cache::CacheError;
use crate::json::{json_str_text, json_text_is, json_text_of_str, JsonText};
use crate::local::{find_pair, item_views, key_views, LocalCache, LocalCacheView};
use crate::lru_index::{distinct_keys, has_key, key_index, lemma_key_index_unique};
use crate::size::{estimated_size_of, sizes_of, SizeEstimate};
use crate::stats::{CacheStats, StatsView};
use crate::entry::CachedValue;

verus! {

/// The key under which the remote store holds `key` of the cache whose keys
/// start with `prefix`: the prefix, a colon, and the JSON text of the key.
pub open spec fn redis_key(prefix: Seq<char>, key: Seq<char>) -> Seq<char> {
    prefix + seq![':'] + json_str_text(key)
}

/// The prefix of the remote keys of the cache named `name`.
pub open spec fn key_prefix(name: Seq<char>) -> Seq<char> {
    seq!['c', 'a', 'c', 'h', 'e', ':'] + name
}

/// The pattern that matches every remote key with `prefix`.
pub open spec fn key_pattern(prefix: Seq<char>) -> Seq<char> {
    prefix + seq![':', '*']
}

/// Whole seconds in `nanos` nanoseconds.
pub open spec fn whole_seconds(nanos: u64) -> u64 {
    (nanos / 1_000_000_000) as u64
}

/// The keys of `keys` that are not among `found`, in order, repeats kept.
pub open spec fn missing_keys(keys: Seq<Seq<char>>, found: Seq<Seq<char>>) -> Seq<Seq<char>>
    decreases keys.len(),
{
    if keys.len() == 0 {
        Seq::empty()
    } else {
        let m = missing_keys(keys.drop_last(), found);
        if found.contains(keys.last()) {
            m
        } else {
            m.push(keys.last())
        }
    }
}

/// The pairs of `missing` with the values that `fetched` found for them, in
/// order.
pub open spec fn fetched_pairs<V>(missing: Seq<Seq<char>>, fetched: Seq<Option<V>>) -> Seq<(Seq<char>, V)>
    decreases missing.len(),
{
    if missing.len() == 0 {
        Seq::empty()
    } else {
        let p = fetched_pairs(missing.drop_last(), fetched.drop_last());
        match fetched.last() {
            Some(v) => p.push((missing.last(), v)),
            None => p,
        }
    }
}

/// `r` with `(k, v)` put in: replacing the pair with key `k`, or added at
/// the end.
pub open spec fn insert_pair<V>(r: Seq<(Seq<char>, V)>, k: Seq<char>, v: V) -> Seq<(Seq<char>, V)> {
    if has_key(r, k) {
        r.update(key_index(r, k), (k, v))
    } else {
        r.push((k, v))
    }
}

/// `r` with each of `pairs` put in, in order.
pub open spec fn insert_all<V>(r: Seq<(Seq<char>, V)>, pairs: Seq<(Seq<char>, V)>) -> Seq<(Seq<char>, V)>
    decreases pairs.len(),
{
    if pairs.len() == 0 {
        r
    } else {
        let p = insert_all(r, pairs.drop_last());
        insert_pair(p, pairs.last().0, pairs.last().1)
    }
}

/// The local cache `c` after the value of each of `pairs` was set under its
/// key at `now`, item `i` being of estimated size `sizes[i]`.
pub open spec fn put_each<V>(c: LocalCacheView<V>, pairs: Seq<(Seq<char>, V)>, sizes: Seq<usize>, now: u64) -> LocalCacheView<V>
    decreases pairs.len(),
{
    if pairs.len() == 0 {
        c
    } else {
        let p = put_each(c, pairs.drop_last(), sizes.drop_last(), now);
        p.after_put(pairs.last().0, LocalCacheView::new_entry(pairs.last().1, c.ttl, sizes.last(), now), true)
    }
}

/// The keys of `pairs` with the values `vals`.
pub open spec fn with_values<V>(pairs: Seq<(Seq<char>, V)>, vals: Seq<V>) -> Seq<(Seq<char>, V)> {
    Seq::new(pairs.len(), |j: int| (pairs[j].0, vals[j]))
}

/// Each of `copies` is a clone of the value of the pair at its position.
pub open spec fn clones_of<V: Clone>(pairs: Seq<(Seq<char>, V)>, copies: Seq<V>) -> bool {
    &&& copies.len() == pairs.len()
    &&& forall|j: int| 0 <= j < pairs.len() ==> cloned(pairs[j].1, #[trigger] copies[j])
}

impl<V> RemoteCacheView<V> {
    /// The keys of `keys` that the local layer finds alive at `now`.
    pub open spec fn local_hits(self, keys: Seq<Seq<char>>, now: u64) -> Seq<Seq<char>> {
        if self.use_local {
            self.local.batch_hits(keys, now)
        } else {
            Seq::empty()
        }
    }
}

impl<V: Clone> RemoteCacheView<V> {
    /// `f` is what the local layer found of `keys` at `now`.
    pub open spec fn found_locally(self, keys: Seq<Seq<char>>, now: u64, f: Seq<(String, V)>) -> bool {
        &&& f.len() == self.local_hits(keys, now).len()
        &&& forall|j: int| 0 <= j < f.len() ==> {
            let k = self.local_hits(keys, now)[j];
            &&& (#[trigger] f[j]).0@ == k
            &&& cloned(self.local.lookup(k).unwrap().value, f[j].1)
        }
    }
}

/// `r` answers a remote write of a value under `key` of the cache whose
/// remote keys start with `prefix`, to expire after `ttl_secs` seconds,
/// where `j` is what `to_json` gave for the value: the write of that text
/// under the remote key of `key`, or, where the value has no JSON text, the
/// serialization error with its reason.
pub open spec fn write_answer(
    prefix: Seq<char>,
    key: Seq<char>,
    ttl_secs: u64,
    j: Result<String, String>,
    r: Result<RemoteWrite, CacheError>,
) -> bool {
    match j {
        Ok(t) => r matches Ok(w) && w.redis_key@ == redis_key(prefix, key) && w.value_json@ == t@ && w.ttl_secs
            == ttl_secs,
        Err(m) => r == Err::<RemoteWrite, CacheError>(CacheError::SerializationError(m)),
    }
}

/// As `write_answer`, for a write step.
pub open spec fn write_step_answer(
    prefix: Seq<char>,
    key: Seq<char>,
    ttl_secs: u64,
    j: Result<String, String>,
    r: Result<WriteStep, CacheError>,
) -> bool {
    match j {
        Ok(t) => r matches Ok(WriteStep::Write(w)) && w.redis_key@ == redis_key(prefix, key) && w.value_json@
            == t@ && w.ttl_secs == ttl_secs,
        Err(m) => r == Err::<WriteStep, CacheError>(CacheError::SerializationError(m)),
    }
}

/// `js` are what `to_json` gave for the values of `items`, in order, from
/// the first up to the first that has no JSON text, if any: every one but
/// the last has a text.
pub open spec fn json_prefix<V: JsonText>(items: Seq<(String, V)>, js: Seq<Result<String, String>>) -> bool {
    &&& js.len() <= items.len()
    &&& forall|a: int| 0 <= a < js.len() ==> json_text_is(items[a].1, #[trigger] js[a])
    &&& forall|a: int| 0 <= a < js.len() - 1 ==> (#[trigger] js[a]) is Ok
}

/// A write to send to the remote store: `value_json` under `redis_key`, to
/// expire after `ttl_secs` seconds.
pub struct RemoteWrite {
    pub redis_key: String,
    pub value_json: String,
    pub ttl_secs: u64,
}

/// What a read needs: nothing more (`Done`, with the answer), or the value
/// under a remote key (`Fetch`).
pub enum ReadStep<T> {
    Done(T),
    Fetch(String),
}

/// What a write needs: nothing more, or a remote write.
pub enum WriteStep {
    Done,
    Write(RemoteWrite),
}

/// What a removal needs: nothing more (with the answer), or the deletion of a
/// remote key.
pub enum RemoveStep {
    Done(bool),
    Delete(String),
}

/// What clearing needs: nothing more, or the deletion of every remote key
/// that matches a pattern.
pub enum ClearStep {
    Done,
    DeleteMatching(String),
}

/// What a batch read needs: nothing more (with the pairs found), or the
/// values under `redis_keys`, the remote keys of `missing`, to join `found`.
pub enum GetMapStep<V> {
    Done(Vec<(String, V)>),
    Fetch { found: Vec<(String, V)>, missing: Vec<String>, redis_keys: Vec<String> },
}

/// A cache with a local layer in front of a remote store.
pub struct RedisIntegratedCache<V> {
    local_cache: LocalCache<V>,
    cache_key_prefix: String,
    read_through: bool,
    write_through: bool,
    use_local_cache: bool,
}

/// What a `RedisIntegratedCache` holds.
pub struct RemoteCacheView<V> {
    pub local: LocalCacheView<V>,
    pub prefix: Seq<char>,
    pub read_through: bool,
    pub write_through: bool,
    pub use_local: bool,
}

impl<V> View for RedisIntegratedCache<V> {
    type V = RemoteCacheView<V>;

    closed spec fn view(&self) -> RemoteCacheView<V> {
        RemoteCacheView {
            local: self.local_cache@,
            prefix: self.cache_key_prefix@,
            read_through: self.read_through,
            write_through: self.write_through,
            use_local: self.use_local_cache,
        }
    }
}

impl<V> RemoteCacheView<V> {
    /// The same cache with another local layer.
    pub open spec fn with_local(self, local: LocalCacheView<V>) -> RemoteCacheView<V> {
        RemoteCacheView { local, ..self }
    }
}

impl<V> RedisIntegratedCache<V> {
    /// The local layer is consistent.
    pub closed spec fn wf(&self) -> bool {
        self.local_cache.wf()
    }

    /// A cache named `cache_name` whose local layer holds up to
    /// `max(max_size, 1)` entries that live `ttl` nanoseconds, with fresh
    /// statistics; it reads through, writes through and uses its local
    /// layer.
    pub fn new(cache_name: &str, ttl: u64, max_size: usize) -> (r: Self)
        ensures
            r.wf(),
            r@.local.entries == Seq::<(Seq<char>, CachedValue<V>)>::empty(),
            r@.local.capacity == (if max_size >= 1 { max_size } else { 1 }),
            r@.local.ttl == ttl,
            r@.local.stats == StatsView::fresh(r@.local.stats.creation_time),
            r@.local.name == cache_name@,
            r@.prefix == key_prefix(cache_name@),
            r@.read_through && r@.write_through && r@.use_local,
    {
        let stats = CacheStats::new();
        let local_cache = LocalCache::new(String::from_str(cache_name), ttl, max_size, stats);
        let mut prefix = String::from_str("cache:");
        prefix.append(cache_name);
        proof {
            reveal_strlit("cache:");
        }
        RedisIntegratedCache {
            local_cache,
            cache_key_prefix: prefix,
            read_through: true,
            write_through: true,
            use_local_cache: true,
        }
    }

    /// The same cache, reading through or not.
    pub fn with_read_through(self, enabled: bool) -> (r: Self)
        ensures
            r.wf() == self.wf(),
            r@ == (RemoteCacheView { read_through: enabled, ..self@ }),
    {
        let mut s = self;
        s.read_through = enabled;
        s
    }

    /// The same cache, writing through or not.
    pub fn with_write_through(self, enabled: bool) -> (r: Self)
        ensures
            r.wf() == self.wf(),
            r@ == (RemoteCacheView { write_through: enabled, ..self@ }),
    {
        let mut s = self;
        s.write_through = enabled;
        s
    }

    /// The same cache, using its local layer or not.
    pub fn with_local_cache(self, enabled: bool) -> (r: Self)
        ensures
            r.wf() == self.wf(),
            r@ == (RemoteCacheView { use_local: enabled, ..self@ }),
    {
        let mut s = self;
        s.use_local_cache = enabled;
        s
    }

    /// The local layer.
    pub fn get_local_cache(&self) -> (r: &LocalCache<V>)
        ensures
            r@ == self@.local,
            self.wf() ==> r.wf(),
    {
        &self.local_cache
    }

    /// Whether the local layer is used.
    pub fn uses_local_cache(&self) -> (r: bool)
        ensures
            r == self@.use_local,
    {
        self.use_local_cache
    }

    /// Whether writes go through to the remote store.
    pub fn writes_through(&self) -> (r: bool)
        ensures
            r == self@.write_through,
    {
        self.write_through
    }

    /// The remote key of `key`. A string always has a JSON text, so this
    /// never fails.
    pub fn build_redis_key(&self, key: &String) -> (r: Result<String, CacheError>)
        ensures
            r is Ok,
            r->Ok_0@ == redis_key(self@.prefix, key@),
    {
        match json_text_of_str(key) {
            Ok(key_json) => {
                let mut t = self.cache_key_prefix.clone();
                t.append(":");
                t.append(key_json.as_str());
                proof {
                    reveal_strlit(":");
                }
                Ok(t)
            },
            Err(m) => Err(CacheError::SerializationError(m)),
        }
    }
}

impl<V> RedisIntegratedCache<V> {
    /// Reads `key` from the local layer at `now` when it is used; a live
    /// entry answers. Otherwise the answer is `None` without read-through,
    /// or else the value under the remote key of `key` is needed.
    pub fn begin_get_at(&mut self, key: &String, now: u64) -> (r: ReadStep<Option<V>>)
        where V: Clone
        requires
            old(self).wf(),
            old(self)@.use_local ==> old(self)@.local.stats.can_count_lookups(1) && old(self)@.local.keys_have_room(
                seq![key@],
                1,
            ),
        ensures
            final(self).wf(),
            final(self)@ == old(self)@.with_local(
                if old(self)@.use_local { old(self)@.local.after_get(key@, now) } else { old(self)@.local },
            ),
            if old(self)@.use_local && old(self)@.local.live_at(key@, now) {
                r matches ReadStep::Done(Some(v)) && cloned(old(self)@.local.lookup(key@).unwrap().value, v)
            } else if !old(self)@.read_through {
                r matches ReadStep::Done(None)
            } else {
                r matches ReadStep::Fetch(t) && t@ == redis_key(old(self)@.prefix, key@)
            },
    {
        if self.use_local_cache {
            match self.local_cache.get_at(key, now) {
                Some(v) => {
                    return ReadStep::Done(Some(v));
                },
                None => {},
            }
        }
        if !self.read_through {
            return ReadStep::Done(None);
        }
        ReadStep::Fetch(self.build_redis_key(key).unwrap())
    }

    /// Takes the answer of the remote store to a read of `key` at `now`: no
    /// value (`None`), a value, or a text that is not a value (`Err`, with
    /// the reason). A value found is put, as a clone, into the local layer
    /// when it is used.
    pub fn finish_get_at(&mut self, key: &String, reply: Option<Result<V, String>>, now: u64) -> (r: Result<
        Option<V>,
        CacheError,
    >)
        where V: Clone + SizeEstimate
        requires
            old(self).wf(),
            old(self)@.use_local ==> old(self)@.local.stats.can_count_evictions(1),
        ensures
            final(self).wf(),
            match reply {
                None => r == Ok::<Option<V>, CacheError>(None) && final(self)@ == old(self)@,
                Some(Err(m)) => r == Err::<Option<V>, CacheError>(CacheError::DeserializationError(m))
                    && final(self)@ == old(self)@,
                Some(Ok(v)) => {
                    &&& r == Ok::<Option<V>, CacheError>(Some(v))
                    &&& old(self)@.use_local ==> exists|c: V, size_bytes: usize|
                        cloned(v, c) && estimated_size_of(c, size_bytes) && final(self)@ == old(self)@.with_local(
                            old(self)@.local.after_put(
                                key@,
                                #[trigger] LocalCacheView::new_entry(c, old(self)@.local.ttl, size_bytes, now),
                                true,
                            ),
                        )
                    &&& !old(self)@.use_local ==> final(self)@ == old(self)@
                },
            },
    {
        match reply {
            None => Ok(None),
            Some(Err(m)) => Err(CacheError::DeserializationError(m)),
            Some(Ok(value)) => {
                if self.use_local_cache {
                    let c = value.clone();
                    let ghost old_local = self.local_cache@;
                    self.local_cache.set_at(key.clone(), c, now);
                    proof {
                        let size_bytes = choose|size_bytes: usize|
                            estimated_size_of(c, size_bytes) && self.local_cache@ == old_local.after_put(
                                key@,
                                #[trigger] LocalCacheView::new_entry(c, old_local.ttl, size_bytes, now),
                                true,
                            );
                        assert(cloned(value, c));
                        assert(self@ == old(self)@.with_local(
                            old_local.after_put(key@, LocalCacheView::new_entry(c, old_local.ttl, size_bytes, now), true),
                        ));
                    }
                }
                Ok(Some(value))
            },
        }
    }

    /// The remote write of the JSON text of `value` under the remote key of
    /// `key`, to expire after `ttl_secs` seconds; fails where the value has
    /// no JSON text.
    fn remote_write(&self, key: &String, value: &V, ttl_secs: u64) -> (r: Result<RemoteWrite, CacheError>)
        where V: JsonText
        ensures
            exists|j: Result<String, String>|
                #[trigger] json_text_is(*value, j) && write_answer(self@.prefix, key@, ttl_secs, j, r),
    {
        let redis_key = self.build_redis_key(key).unwrap();
        let j = value.to_json();
        let ghost jg = j;
        let r = match j {
            Ok(value_json) => Ok(RemoteWrite { redis_key, value_json, ttl_secs }),
            Err(m) => Err(CacheError::SerializationError(m)),
        };
        assert(json_text_is(*value, jg) && write_answer(self@.prefix, key@, ttl_secs, jg, r));
        r
    }

    /// Writes `value` under `key` at `now`: a clone goes into the local layer
    /// (to live the cache's `ttl`) when it is used; with write-through the
    /// value is to be written remotely, to expire after `ttl_secs` seconds.
    fn begin_write_at(&mut self, key: String, value: V, ttl_secs: u64, now: u64) -> (r: Result<WriteStep, CacheError>)
        where V: Clone + SizeEstimate + JsonText
        requires
            old(self).wf(),
            old(self)@.use_local ==> old(self)@.local.stats.can_count_evictions(1),
        ensures
            final(self).wf(),
            old(self)@.use_local ==> exists|c: V, size_bytes: usize|
                cloned(value, c) && estimated_size_of(c, size_bytes) && final(self)@ == old(self)@.with_local(
                    old(self)@.local.after_put(
                        key@,
                        #[trigger] LocalCacheView::new_entry(c, old(self)@.local.ttl, size_bytes, now),
                        true,
                    ),
                ),
            !old(self)@.use_local ==> final(self)@ == old(self)@,
            !old(self)@.write_through ==> r matches Ok(WriteStep::Done),
            old(self)@.write_through ==> exists|j: Result<String, String>|
                #[trigger] json_text_is(value, j) && write_step_answer(old(self)@.prefix, key@, ttl_secs, j, r),
    {
        if self.use_local_cache {
            let c = value.clone();
            let ghost old_local = self.local_cache@;
            self.local_cache.set_at(key.clone(), c, now);
            proof {
                let size_bytes = choose|size_bytes: usize|
                    estimated_size_of(c, size_bytes) && self.local_cache@ == old_local.after_put(
                        key@,
                        #[trigger] LocalCacheView::new_entry(c, old_local.ttl, size_bytes, now),
                        true,
                    );
                assert(cloned(value, c));
                assert(self@ == old(self)@.with_local(
                    old_local.after_put(key@, LocalCacheView::new_entry(c, old_local.ttl, size_bytes, now), true),
                ));
            }
        }
        if !self.write_through {
            return Ok(WriteStep::Done);
        }
        let ghost prefix = self@.prefix;
        let w = self.remote_write(&key, &value, ttl_secs);
        let ghost j = choose|j: Result<String, String>|
            #[trigger] json_text_is(value, j) && write_answer(prefix, key@, ttl_secs, j, w);
        let r = match w {
            Ok(w) => Ok(WriteStep::Write(w)),
            Err(e) => Err(e),
        };
        assert(json_text_is(value, j) && write_step_answer(prefix, key@, ttl_secs, j, r));
        r
    }

    /// Writes `value` under `key` at `now`: a clone goes into the local layer
    /// when it is used; with write-through the value is to be written
    /// remotely, to expire after the whole seconds of the cache's `ttl`.
    pub fn begin_set_at(&mut self, key: String, value: V, now: u64) -> (r: Result<WriteStep, CacheError>)
        where V: Clone + SizeEstimate + JsonText
        requires
            old(self).wf(),
            old(self)@.use_local ==> old(self)@.local.stats.can_count_evictions(1),
        ensures
            final(self).wf(),
            old(self)@.use_local ==> exists|c: V, size_bytes: usize|
                cloned(value, c) && estimated_size_of(c, size_bytes) && final(self)@ == old(self)@.with_local(
                    old(self)@.local.after_put(
                        key@,
                        #[trigger] LocalCacheView::new_entry(c, old(self)@.local.ttl, size_bytes, now),
                        true,
                    ),
                ),
            !old(self)@.use_local ==> final(self)@ == old(self)@,
            !old(self)@.write_through ==> r matches Ok(WriteStep::Done),
            old(self)@.write_through ==> exists|j: Result<String, String>|
                #[trigger] json_text_is(value, j) && write_step_answer(
                    old(self)@.prefix,
                    key@,
                    whole_seconds(old(self)@.local.ttl),
                    j,
                    r,
                ),
    {
        let ttl_secs = self.local_cache.ttl() / 1_000_000_000;
        self.begin_write_at(key, value, ttl_secs, now)
    }

    /// As `begin_set_at`, but the remote value expires after the whole
    /// seconds of `ttl`; the local layer still keeps it for the cache's
    /// `ttl`.
    pub fn begin_set_with_ttl_at(&mut self, key: String, value: V, ttl: u64, now: u64) -> (r: Result<WriteStep, CacheError>)
        where V: Clone + SizeEstimate + JsonText
        requires
            old(self).wf(),
            old(self)@.use_local ==> old(self)@.local.stats.can_count_evictions(1),
        ensures
            final(self).wf(),
            old(self)@.use_local ==> exists|c: V, size_bytes: usize|
                cloned(value, c) && estimated_size_of(c, size_bytes) && final(self)@ == old(self)@.with_local(
                    old(self)@.local.after_put(
                        key@,
                        #[trigger] LocalCacheView::new_entry(c, old(self)@.local.ttl, size_bytes, now),
                        true,
                    ),
                ),
            !old(self)@.use_local ==> final(self)@ == old(self)@,
            !old(self)@.write_through ==> r matches Ok(WriteStep::Done),
            old(self)@.write_through ==> exists|j: Result<String, String>|
                #[trigger] json_text_is(value, j) && write_step_answer(old(self)@.prefix, key@, whole_seconds(ttl), j, r),
    {
        self.begin_write_at(key, value, ttl / 1_000_000_000, now)
    }

    /// Removes `key` from the local layer when it is used. Without
    /// write-through the answer is `true`; with it, the remote key of `key`
    /// is to be deleted.
    pub fn begin_remove(&mut self, key: &String) -> (r: RemoveStep)
        requires
            old(self).wf(),
        ensures
            final(self).wf(),
            final(self)@ == old(self)@.with_local(
                if old(self)@.use_local { old(self)@.local.after_remove(key@) } else { old(self)@.local },
            ),
            !old(self)@.write_through ==> (r matches RemoveStep::Done(b) && b),
            old(self)@.write_through ==> (r matches RemoveStep::Delete(t) && t@ == redis_key(old(self)@.prefix, key@)),
    {
        if self.use_local_cache {
            let _ = self.local_cache.remove_entry(key);
        }
        if !self.write_through {
            return RemoveStep::Done(true);
        }
        RemoveStep::Delete(self.build_redis_key(key).unwrap())
    }

    /// The answer of a removal whose remote deletion removed `deleted` keys:
    /// whether it removed any.
    pub fn finish_remove(deleted: i32) -> (r: bool)
        ensures
            r == (deleted > 0),
    {
        deleted > 0
    }

    /// Clears the local layer when it is used; with write-through every
    /// remote key of the cache is to be deleted.
    pub fn begin_clear(&mut self) -> (r: ClearStep)
        requires
            old(self).wf(),
            old(self)@.use_local ==> old(self)@.local.stats.can_count_evictions(old(self)@.local.entries.len() as int),
        ensures
            final(self).wf(),
            final(self)@ == old(self)@.with_local(
                if old(self)@.use_local { old(self)@.local.after_clear() } else { old(self)@.local },
            ),
            !old(self)@.write_through ==> r matches ClearStep::Done,
            old(self)@.write_through ==> (r matches ClearStep::DeleteMatching(t) && t@ == key_pattern(old(self)@.prefix)),
    {
        if self.use_local_cache {
            self.local_cache.clear_all();
        }
        if !self.write_through {
            return ClearStep::Done;
        }
        let mut pattern = self.cache_key_prefix.clone();
        pattern.append(":*");
        proof {
            reveal_strlit(":*");
        }
        ClearStep::DeleteMatching(pattern)
    }

    /// Takes the answer of the remote store to the read of `key` that a
    /// refresh makes (its remote key is `build_redis_key(key)`), at `now`. A
    /// value found goes into the local layer, when it is used, and the answer
    /// is `true`; no value removes `key` from the local layer and the answer
    /// is `false`; a text that is not a value is an error.
    pub fn finish_refresh_at(&mut self, key: &String, reply: Option<Result<V, String>>, now: u64) -> (r: Result<bool, CacheError>)
        where V: SizeEstimate
        requires
            old(self).wf(),
            old(self)@.use_local ==> old(self)@.local.stats.can_count_evictions(1),
        ensures
            final(self).wf(),
            match reply {
                None => r == Ok::<bool, CacheError>(false) && final(self)@ == old(self)@.with_local(
                    if old(self)@.use_local { old(self)@.local.after_remove(key@) } else { old(self)@.local },
                ),
                Some(Err(m)) => r == Err::<bool, CacheError>(CacheError::DeserializationError(m))
                    && final(self)@ == old(self)@,
                Some(Ok(v)) => {
                    &&& r == Ok::<bool, CacheError>(true)
                    &&& old(self)@.use_local ==> exists|size_bytes: usize|
                        estimated_size_of(v, size_bytes) && final(self)@ == old(self)@.with_local(
                            old(self)@.local.after_put(
                                key@,
                                #[trigger] LocalCacheView::new_entry(v, old(self)@.local.ttl, size_bytes, now),
                                true,
                            ),
                        )
                    &&& !old(self)@.use_local ==> final(self)@ == old(self)@
                },
            },
    {
        match reply {
            None => {
                if self.use_local_cache {
                    let _ = self.local_cache.remove_entry(key);
                }
                Ok(false)
            },
            Some(Err(m)) => Err(CacheError::DeserializationError(m)),
            Some(Ok(value)) => {
                if self.use_local_cache {
                    self.local_cache.set_at(key.clone(), value, now);
                }
                Ok(true)
            },
        }
    }
}

impl<V> RedisIntegratedCache<V> {
    /// Reads `keys` from the local layer at `now` when it is used. The keys
    /// not found locally are needed from the remote store with
    /// read-through; otherwise the pairs found are the answer.
    pub fn begin_get_map_at(&mut self, keys: &[String], now: u64) -> (r: GetMapStep<V>)
        where V: Clone
        requires
            old(self).wf(),
            old(self)@.use_local ==> old(self)@.local.stats.can_count_lookups(keys@.len() as int)
                && old(self)@.local.keys_have_room(key_views(keys@), keys@.len() as int),
        ensures
            final(self).wf(),
            final(self)@ == old(self)@.with_local(
                if old(self)@.use_local {
                    old(self)@.local.after_get_map(key_views(keys@), now)
                } else {
                    old(self)@.local
                },
            ),
            ({
                let miss = missing_keys(key_views(keys@), old(self)@.local_hits(key_views(keys@), now));
                match r {
                    GetMapStep::Done(f) => !(old(self)@.read_through && miss.len() > 0) && old(self)@.found_locally(
                        key_views(keys@),
                        now,
                        f@,
                    ),
                    GetMapStep::Fetch { found, missing, redis_keys } => {
                        &&& old(self)@.read_through && miss.len() > 0
                        &&& old(self)@.found_locally(key_views(keys@), now, found@)
                        &&& missing@.len() == miss.len()
                        &&& redis_keys@.len() == miss.len()
                        &&& forall|j: int|
                            0 <= j < miss.len() ==> (#[trigger] missing@[j])@ == miss[j] && redis_keys@[j]@
                                == redis_key(old(self)@.prefix, miss[j])
                    },
                }
            }),
    {
        let ghost v0 = self@;
        let ghost kv = key_views(keys@);
        let found: Vec<(String, V)> = if self.use_local_cache {
            self.local_cache.get_map_at(keys, now)
        } else {
            Vec::new()
        };
        let ghost hits = v0.local_hits(kv, now);
        let n = keys.len();
        let mut missing: Vec<String> = Vec::new();
        let mut i: usize = 0;
        proof {
            assert(kv.take(0) =~= Seq::<Seq<char>>::empty());
        }
        while i < n
            invariant
                n == keys@.len(),
                kv == key_views(keys@),
                0 <= i <= n,
                found@.len() == hits.len(),
                forall|j: int| 0 <= j < found@.len() ==> (#[trigger] found@[j]).0@ == hits[j],
                missing@.len() == missing_keys(kv.take(i as int), hits).len(),
                forall|j: int|
                    0 <= j < missing@.len() ==> (#[trigger] missing@[j])@ == missing_keys(kv.take(i as int), hits)[j],
            decreases n - i,
        {
            proof {
                assert(kv.take(i + 1).drop_last() =~= kv.take(i as int));
                assert(kv.take(i + 1).last() == keys@[i as int]@);
            }
            match find_pair(&found, &keys[i]) {
                None => {
                    missing.push(keys[i].clone());
                    proof {
                        if hits.contains(keys@[i as int]@) {
                            let m = choose|m: int| 0 <= m < hits.len() && hits[m] == keys@[i as int]@;
                            assert(found@[m].0@ == keys@[i as int]@);
                        }
                    }
                },
                Some(pos) => {
                    proof {
                        assert(hits[pos as int] == keys@[i as int]@);
                    }
                },
            }
            i = i + 1;
        }
        proof {
            assert(kv.take(n as int) =~= kv);
        }
        if self.read_through && missing.len() > 0 {
            let mut redis_keys: Vec<String> = Vec::new();
            let ghost v1 = self@;
            let ghost w1 = self.wf();
            let m = missing.len();
            let mut j: usize = 0;
            while j < m
                invariant
                    m == missing@.len(),
                    m > 0,
                    old(self)@.read_through,
                    kv == key_views(keys@),
                    hits == old(self)@.local_hits(kv, now),
                    m == missing_keys(kv, hits).len(),
                    0 <= j <= m,
                    self@.prefix == v0.prefix,
                    self.wf(),
                    self@ == old(self)@.with_local(
                        if old(self)@.use_local {
                            old(self)@.local.after_get_map(key_views(keys@), now)
                        } else {
                            old(self)@.local
                        },
                    ),
                    redis_keys@.len() == j,
                    forall|a: int|
                        0 <= a < j ==> (#[trigger] redis_keys@[a])@ == redis_key(v0.prefix, missing@[a]@),
                decreases m - j,
            {
                redis_keys.push(self.build_redis_key(&missing[j]).unwrap());
                j = j + 1;
            }
            GetMapStep::Fetch { found, missing, redis_keys }
        } else {
            GetMapStep::Done(found)
        }
    }
}

/// Putting a pair into a list with distinct keys keeps them distinct.
proof fn lemma_insert_pair_distinct<V>(r: Seq<(Seq<char>, V)>, k: Seq<char>, v: V)
    requires
        distinct_keys(r),
    ensures
        distinct_keys(insert_pair(r, k, v)),
{
    let q = insert_pair(r, k, v);
    if has_key(r, k) {
        let i = key_index(r, k);
        assert forall|a: int, b: int| 0 <= a < q.len() && 0 <= b < q.len() && a != b implies (#[trigger] q[a]).0
            != (#[trigger] q[b]).0 by {
            assert(r[i].0 == k);
        }
    } else {
        assert forall|a: int, b: int| 0 <= a < q.len() && 0 <= b < q.len() && a != b implies (#[trigger] q[a]).0
            != (#[trigger] q[b]).0 by {
            if a < r.len() && b < r.len() {
            } else if a < r.len() {
                assert(q[a] == r[a]);
            } else {
                assert(q[b] == r[b]);
            }
        }
    }
}

impl<V> RedisIntegratedCache<V> {
    /// Takes the answers of the remote store to the reads of `missing` at
    /// `now`: `fetched[i]` is the value found under `missing[i]`, or `None`.
    /// Each value found joins `found` (replacing a pair with its key) and, as
    /// a clone, goes into the local layer when it is used.
    pub fn finish_get_map_at(
        &mut self,
        found: Vec<(String, V)>,
        missing: Vec<String>,
        fetched: Vec<Option<V>>,
        now: u64,
    ) -> (r: Vec<(String, V)>)
        where V: Clone + SizeEstimate
        requires
            old(self).wf(),
            fetched@.len() == missing@.len(),
            distinct_keys(item_views(found@)),
            old(self)@.use_local ==> old(self)@.local.stats.can_count_evictions(missing@.len() as int),
        ensures
            final(self).wf(),
            item_views(r@) == insert_all(item_views(found@), fetched_pairs(key_views(missing@), fetched@)),
            old(self)@.use_local ==> exists|copies: Seq<V>, sizes: Seq<usize>| {
                &&& clones_of(fetched_pairs(key_views(missing@), fetched@), copies)
                &&& sizes_of(copies, sizes)
                &&& final(self)@ == #[trigger] old(self)@.with_local(
                    put_each(
                        old(self)@.local,
                        with_values(fetched_pairs(key_views(missing@), fetched@), copies),
                        sizes,
                        now,
                    ),
                )
            },
            !old(self)@.use_local ==> final(self)@ == old(self)@,
    {
        let ghost v0 = self@;
        let ghost mv = key_views(missing@);
        let ghost fv = fetched@;
        let ghost mut copies: Seq<V> = Seq::empty();
        let ghost mut sizes: Seq<usize> = Seq::empty();
        let n = missing.len();
        let mut result = found;
        let mut rest = fetched;
        let mut i: usize = 0;
        proof {
            assert(mv.take(0) =~= Seq::<Seq<char>>::empty());
            assert(fv.take(0) =~= Seq::<Option<V>>::empty());
            assert(rest@ =~= fv.skip(0));
            assert(with_values(fetched_pairs(mv.take(0), fv.take(0)), copies) =~= Seq::<(Seq<char>, V)>::empty());
        }
        while i < n
            invariant
                self.wf(),
                v0 == old(self)@,
                n == missing@.len(),
                mv == key_views(missing@),
                fv.len() == n,
                0 <= i <= n,
                rest@ == fv.skip(i as int),
                distinct_keys(item_views(result@)),
                item_views(result@) == insert_all(item_views(found@), fetched_pairs(mv.take(i as int), fv.take(i as int))),
                self@.prefix == v0.prefix && self@.read_through == v0.read_through && self@.write_through
                    == v0.write_through && self@.use_local == v0.use_local,
                v0.use_local ==> {
                    &&& clones_of(fetched_pairs(mv.take(i as int), fv.take(i as int)), copies)
                    &&& sizes_of(copies, sizes)
                    &&& self@.local == put_each(
                        v0.local,
                        with_values(fetched_pairs(mv.take(i as int), fv.take(i as int)), copies),
                        sizes,
                        now,
                    )
                    &&& self@.local.stats.total_evictions <= v0.local.stats.total_evictions + copies.len()
                    &&& copies.len() <= i
                    &&& self@.local.ttl == v0.local.ttl
                },
                !v0.use_local ==> self@ == v0,
                v0.use_local ==> v0.local.stats.can_count_evictions(n as int),
            decreases n - i,
        {
            let ghost cur_pairs = fetched_pairs(mv.take(i as int), fv.take(i as int));
            proof {
                assert(mv.take(i + 1).drop_last() =~= mv.take(i as int));
                assert(fv.take(i + 1).drop_last() =~= fv.take(i as int));
                assert(mv.take(i + 1).last() == missing@[i as int]@);
                assert(fv.take(i + 1).last() == fv[i as int]);
                assert(rest@[0] == fv[i as int]);
            }
            let item = rest.remove(0);
            proof {
                assert(rest@ =~= fv.skip(i + 1));
            }
            match item {
                None => {},
                Some(value) => {
                    let key = &missing[i];
                    if self.use_local_cache {
                        let c = value.clone();
                        let ghost old_local = self@.local;
                        proof {
                            assert(old_local.stats.can_count_evictions(1));
                        }
                        self.local_cache.set_at(key.clone(), c, now);
                        proof {
                            let sz = choose|sz: usize|
                                estimated_size_of(c, sz) && self.local_cache@ == old_local.after_put(
                                    key@,
                                    #[trigger] LocalCacheView::new_entry(c, old_local.ttl, sz, now),
                                    true,
                                );
                            let old_copies = copies;
                            let old_sizes = sizes;
                            copies = copies.push(c);
                            sizes = sizes.push(sz);
                            let np = fetched_pairs(mv.take(i + 1), fv.take(i + 1));
                            assert(np == cur_pairs.push((key@, value)));
                            assert(clones_of(np, copies)) by {
                                assert forall|j: int| 0 <= j < np.len() implies cloned(np[j].1, #[trigger] copies[j]) by {
                                    if j < cur_pairs.len() {
                                        assert(np[j] == cur_pairs[j]);
                                        assert(copies[j] == old_copies[j]);
                                    }
                                }
                            }
                            let wv = with_values(np, copies);
                            assert(wv.drop_last() =~= with_values(cur_pairs, old_copies));
                            assert(sizes.drop_last() =~= old_sizes);
                            assert(wv.last() == (key@, c));
                            assert(sizes_of(copies, sizes)) by {
                                assert forall|j: int| 0 <= j < sizes.len() implies estimated_size_of(copies[j], #[trigger] sizes[j]) by {
                                    if j < old_sizes.len() {
                                        assert(copies[j] == old_copies[j]);
                                        assert(sizes[j] == old_sizes[j]);
                                    }
                                }
                            }
                        }
                    }
                    let ghost prev = item_views(result@);
                    match find_pair(&result, key) {
                        Some(pos) => {
                            proof {
                                assert(prev[pos as int].0 == key@);
                                lemma_key_index_unique(prev, pos as int);
                            }
                            result.set(pos, (key.clone(), value));
                        },
                        None => {
                            proof {
                                if has_key(prev, key@) {
                                    let q = key_index(prev, key@);
                                    assert(result@[q].0@ == key@);
                                }
                            }
                            result.push((key.clone(), value));
                        },
                    }
                    proof {
                        assert(item_views(result@) =~= insert_pair(prev, key@, value));
                        lemma_insert_pair_distinct(prev, key@, value);
                        let np = fetched_pairs(mv.take(i + 1), fv.take(i + 1));
                        assert(np == cur_pairs.push((key@, value)));
                        assert(np.drop_last() =~= cur_pairs);
                    }
                },
            }
            i = i + 1;
        }
        proof {
            assert(mv.take(n as int) =~= mv);
            assert(fv.take(n as int) =~= fv);
            if v0.use_local {
                assert(self@ == v0.with_local(
                    put_each(v0.local, with_values(fetched_pairs(mv, fv), copies), sizes, now),
                ));
            }
        }
        result
    }
}

impl<V> RedisIntegratedCache<V> {
    /// Writes each of `items` at `now`: clones go into the local layer, in
    /// order, when it is used; with write-through and some items, each
    /// value is to be written remotely, to expire after the whole seconds
    /// of the cache's `ttl`.
    pub fn begin_set_multi_at(&mut self, items: Vec<(String, V)>, now: u64) -> (r: Result<Vec<RemoteWrite>, CacheError>)
        where V: Clone + SizeEstimate + JsonText
        requires
            old(self).wf(),
            old(self)@.use_local ==> old(self)@.local.stats.can_count_evictions(items@.len() as int),
        ensures
            final(self).wf(),
            old(self)@.use_local ==> exists|copies: Seq<V>, sizes: Seq<usize>| {
                &&& clones_of(item_views(items@), copies)
                &&& sizes_of(copies, sizes)
                &&& final(self)@ == #[trigger] old(self)@.with_local(
                    old(self)@.local.after_set_multi(with_values(item_views(items@), copies), sizes, now),
                )
            },
            !old(self)@.use_local ==> final(self)@ == old(self)@,
            if old(self)@.write_through && items@.len() > 0 {
                exists|js: Seq<Result<String, String>>| #[trigger] json_prefix(items@, js) && match r {
                    Ok(ws) => {
                        &&& js.len() == items@.len()
                        &&& js.last() is Ok
                        &&& ws@.len() == items@.len()
                        &&& forall|j: int|
                            0 <= j < items@.len() ==> (#[trigger] ws@[j]).redis_key@ == redis_key(
                                old(self)@.prefix,
                                items@[j].0@,
                            ) && ws@[j].value_json@ == js[j]->Ok_0@ && ws@[j].ttl_secs == whole_seconds(
                                old(self)@.local.ttl,
                            )
                    },
                    Err(e) => js.len() > 0 && (js.last() matches Err(m) && e == CacheError::SerializationError(m)),
                }
            } else {
                r matches Ok(ws) && ws@.len() == 0
            },
    {
        let ghost v0 = self@;
        let n = items.len();
        if self.use_local_cache {
            let mut copies_vec: Vec<(String, V)> = Vec::new();
            let mut j: usize = 0;
            while j < n
                invariant
                    n == items@.len(),
                    0 <= j <= n,
                    copies_vec@.len() == j,
                    forall|a: int|
                        0 <= a < j ==> (#[trigger] copies_vec@[a]).0@ == items@[a].0@ && cloned(
                            items@[a].1,
                            copies_vec@[a].1,
                        ),
                decreases n - j,
            {
                let k = items[j].0.clone();
                let c = items[j].1.clone();
                copies_vec.push((k, c));
                j = j + 1;
            }
            let ghost copies = Seq::new(n as nat, |a: int| copies_vec@[a].1);
            proof {
                assert(item_views(copies_vec@) =~= with_values(item_views(items@), copies));
                assert(clones_of(item_views(items@), copies));
            }
            let ghost old_local = self.local_cache@;
            let _ = self.local_cache.set_multi_at(copies_vec, now);
            proof {
                let sizes = choose|sizes: Seq<usize>| {
                    &&& sizes.len() == copies_vec@.len()
                    &&& forall|j: int| 0 <= j < sizes.len() ==> estimated_size_of(copies_vec@[j].1, #[trigger] sizes[j])
                    &&& self.local_cache@ == #[trigger] old_local.after_set_multi(item_views(copies_vec@), sizes, now)
                };
                assert(self@ == v0.with_local(v0.local.after_set_multi(with_values(item_views(items@), copies), sizes, now)));
                v0.local.lemma_batch_put_keeps(item_views(copies_vec@), sizes, now);
            }
        }
        if !self.write_through || n == 0 {
            return Ok(Vec::new());
        }
        let ttl_secs = self.local_cache.ttl() / 1_000_000_000;
        let ghost v1 = self@;
        let mut ws: Vec<RemoteWrite> = Vec::new();
        let mut j: usize = 0;
        let ghost mut js: Seq<Result<String, String>> = Seq::empty();
        while j < n
            invariant
                n == items@.len(),
                0 <= j <= n,
                self@ == v1,
                self.wf(),
                v0 == old(self)@,
                old(self)@.use_local ==> exists|copies: Seq<V>, sizes: Seq<usize>| {
                    &&& clones_of(item_views(items@), copies)
                    &&& sizes_of(copies, sizes)
                    &&& self@ == #[trigger] old(self)@.with_local(
                        old(self)@.local.after_set_multi(with_values(item_views(items@), copies), sizes, now),
                    )
                },
                !old(self)@.use_local ==> self@ == old(self)@,
                old(self)@.write_through,
                n > 0,
                self@.prefix == v0.prefix,
                ttl_secs == whole_seconds(v0.local.ttl),
                ws@.len() == j,
                js.len() == j,
                json_prefix(items@, js),
                forall|a: int| 0 <= a < j ==> (#[trigger] js[a]) is Ok,
                forall|a: int|
                    0 <= a < j ==> (#[trigger] ws@[a]).redis_key@ == redis_key(v0.prefix, items@[a].0@)
                        && ws@[a].value_json@ == js[a]->Ok_0@ && ws@[a].ttl_secs == ttl_secs,
            decreases n - j,
        {
            let w = self.remote_write(&items[j].0, &items[j].1, ttl_secs);
            let ghost jj = choose|jj: Result<String, String>|
                #[trigger] json_text_is(items@[j as int].1, jj) && write_answer(v0.prefix, items@[j as int].0@, ttl_secs, jj, w);
            let ghost js0 = js;
            proof {
                js = js.push(jj);
                assert forall|a: int| 0 <= a < js.len() implies json_text_is(items@[a].1, #[trigger] js[a]) by {
                    if a < js0.len() {
                        assert(js[a] == js0[a]);
                    }
                }
                assert forall|a: int| 0 <= a < js.len() - 1 implies (#[trigger] js[a]) is Ok by {
                    assert(js[a] == js0[a]);
                }
                assert(json_prefix(items@, js));
            }
            match w {
                Ok(w) => {
                    ws.push(w);
                    proof {
                        assert forall|a: int| 0 <= a < j + 1 implies (#[trigger] js[a]) is Ok by {
                            if a < j {
                                assert(js[a] == js0[a]);
                            }
                        }
                        assert forall|a: int| 0 <= a < j + 1 implies (#[trigger] ws@[a]).redis_key@ == redis_key(
                            v0.prefix,
                            items@[a].0@,
                        ) && ws@[a].value_json@ == js[a]->Ok_0@ && ws@[a].ttl_secs == ttl_secs by {
                            if a < j {
                                assert(js[a] == js0[a]);
                            }
                        }
                    }
                },
                Err(e) => {
                    proof {
                        assert(js.last() == jj);
                    }
                    return Err(e);
                },
            }
            j = j + 1;
        }
        proof {
            assert(js.last() is Ok);
        }
        Ok(ws)
    }
}

} // verus!
