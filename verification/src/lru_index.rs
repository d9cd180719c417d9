//! The recency index of a local cache: an `lru::LruCache` from keys to slot
//! numbers, and the sequences of keyed pairs that describe it.
use vstd::prelude::*;
use lru::LruCache;

verus! {

#[verifier::external_type_specification]
#[verifier::external_body]
#[verifier::reject_recursive_types(K)]
#[verifier::reject_recursive_types(V)]
#[verifier::reject_recursive_types(S)]
pub struct ExLruCache<K, V, S>(LruCache<K, V, S>);

#[verifier::external_type_specification]
#[verifier::external_body]
pub struct ExLruDefaultHasher(lru::DefaultHasher);

/// Whether some pair of `s` has the key `k`.
pub open spec fn has_key<T>(s: Seq<(Seq<char>, T)>, k: Seq<char>) -> bool {
    exists|i: int| 0 <= i < s.len() && (#[trigger] s[i]).0 == k
}

/// The position of a pair of `s` with key `k` (where there is one).
pub open spec fn key_index<T>(s: Seq<(Seq<char>, T)>, k: Seq<char>) -> int {
    choose|i: int| 0 <= i < s.len() && (#[trigger] s[i]).0 == k
}

/// No key occurs twice in `s`.
pub open spec fn distinct_keys<T>(s: Seq<(Seq<char>, T)>) -> bool {
    forall|i: int, j: int|
        0 <= i < s.len() && 0 <= j < s.len() && i != j ==> (#[trigger] s[i]).0 != (#[trigger] s[j]).0
}

/// `s` with its pair at position `i` moved to the front.
pub open spec fn to_front<T>(s: Seq<(Seq<char>, T)>, i: int) -> Seq<(Seq<char>, T)> {
    seq![s[i]] + s.remove(i)
}

/// `s` after `(k, v)` was put in a recency list of capacity `cap`: a pair
/// with key `k` leaves its place, or else, in a full list, the last pair
/// leaves; `(k, v)` comes first.
pub open spec fn put_model<T>(s: Seq<(Seq<char>, T)>, cap: nat, k: Seq<char>, v: T) -> Seq<(Seq<char>, T)> {
    if has_key(s, k) {
        seq![(k, v)] + s.remove(key_index(s, k))
    } else if s.len() >= cap {
        seq![(k, v)] + s.drop_last()
    } else {
        seq![(k, v)] + s
    }
}

/// In a list with distinct keys, the position of a key is the one where it
/// stands.
pub proof fn lemma_key_index_unique<T>(s: Seq<(Seq<char>, T)>, i: int)
    requires
        distinct_keys(s),
        0 <= i < s.len(),
    ensures
        has_key(s, s[i].0),
        key_index(s, s[i].0) == i,
{
    assert(has_key(s, s[i].0));
    let j = key_index(s, s[i].0);
    assert(s[j].0 == s[i].0);
}

/// The pairs of an `LruCache`, most recently used first, each key as its
/// characters.
pub uninterp spec fn lru_entries(c: LruCache<String, usize>) -> Seq<(Seq<char>, usize)>;

/// The capacity that an `LruCache` was made with.
pub uninterp spec fn lru_cap(c: LruCache<String, usize>) -> nat;

/// `LruCache::new`, with the capacity given as a nonzero count: the cache is
/// empty and holds at most `cap` pairs.
#[verifier::external_body]
pub(crate) fn lru_new(cap: usize) -> (c: LruCache<String, usize>)
    requires
        cap >= 1,
    ensures
        lru_entries(c) == Seq::<(Seq<char>, usize)>::empty(),
        lru_cap(c) == cap,
{
    LruCache::new(std::num::NonZeroUsize::new(cap).unwrap())
}

/// `LruCache::len`: the number of pairs.
#[verifier::external_body]
pub(crate) fn lru_len(c: &LruCache<String, usize>) -> (r: usize)
    ensures
        r == lru_entries(*c).len(),
{
    c.len()
}

/// `LruCache::cap`: the capacity the cache was made with.
#[verifier::external_body]
pub(crate) fn lru_capacity(c: &LruCache<String, usize>) -> (r: usize)
    ensures
        r == lru_cap(*c),
{
    c.cap().get()
}

/// `LruCache::peek`: the value of key `k`, without a change of order.
#[verifier::external_body]
pub(crate) fn lru_peek(c: &LruCache<String, usize>, k: &String) -> (r: Option<usize>)
    ensures
        r is Some <==> has_key(lru_entries(*c), k@),
        r matches Some(v) ==> v == lru_entries(*c)[key_index(lru_entries(*c), k@)].1,
{
    c.peek(k).copied()
}

/// `LruCache::get`: the value of key `k`; the pair becomes the most recently
/// used.
#[verifier::external_body]
pub(crate) fn lru_get(c: &mut LruCache<String, usize>, k: &String) -> (r: Option<usize>)
    ensures
        lru_cap(*final(c)) == lru_cap(*old(c)),
        r is Some <==> has_key(lru_entries(*old(c)), k@),
        r is None ==> lru_entries(*final(c)) == lru_entries(*old(c)),
        r matches Some(v) ==> {
            let i = key_index(lru_entries(*old(c)), k@);
            &&& v == lru_entries(*old(c))[i].1
            &&& lru_entries(*final(c)) == to_front(lru_entries(*old(c)), i)
        },
{
    c.get(k).copied()
}

/// `LruCache::put`: `(k, v)` becomes the most recently used pair; the old
/// value of `k` is handed back, or, when `k` was absent from a full cache,
/// the least recently used pair is dropped.
#[verifier::external_body]
pub(crate) fn lru_put(c: &mut LruCache<String, usize>, k: String, v: usize) -> (r: Option<usize>)
    ensures
        lru_cap(*final(c)) == lru_cap(*old(c)),
        lru_entries(*final(c)) == put_model(lru_entries(*old(c)), lru_cap(*old(c)), k@, v),
        r is Some <==> has_key(lru_entries(*old(c)), k@),
        r matches Some(w) ==> w == lru_entries(*old(c))[key_index(lru_entries(*old(c)), k@)].1,
{
    c.put(k, v)
}

/// `LruCache::pop`: removes key `k` and hands back its value.
#[verifier::external_body]
pub(crate) fn lru_pop(c: &mut LruCache<String, usize>, k: &String) -> (r: Option<usize>)
    ensures
        lru_cap(*final(c)) == lru_cap(*old(c)),
        r is Some <==> has_key(lru_entries(*old(c)), k@),
        r is None ==> lru_entries(*final(c)) == lru_entries(*old(c)),
        r matches Some(v) ==> {
            let i = key_index(lru_entries(*old(c)), k@);
            &&& v == lru_entries(*old(c))[i].1
            &&& lru_entries(*final(c)) == lru_entries(*old(c)).remove(i)
        },
{
    c.pop(k)
}

/// `LruCache::pop_lru`: removes the least recently used pair and hands it
/// back.
#[verifier::external_body]
pub(crate) fn lru_pop_lru(c: &mut LruCache<String, usize>) -> (r: Option<(String, usize)>)
    ensures
        lru_cap(*final(c)) == lru_cap(*old(c)),
        r is Some <==> lru_entries(*old(c)).len() > 0,
        r is None ==> lru_entries(*final(c)) == lru_entries(*old(c)),
        r matches Some(p) ==> {
            &&& (p.0@, p.1) == lru_entries(*old(c)).last()
            &&& lru_entries(*final(c)) == lru_entries(*old(c)).drop_last()
        },
{
    c.pop_lru()
}

/// `LruCache::clear`: removes every pair.
#[verifier::external_body]
pub(crate) fn lru_clear(c: &mut LruCache<String, usize>)
    ensures
        lru_cap(*final(c)) == lru_cap(*old(c)),
        lru_entries(*final(c)) == Seq::<(Seq<char>, usize)>::empty(),
{
    c.clear()
}

/// `LruCache::iter`, each pair copied out: the pairs, most recently used
/// first.
#[verifier::external_body]
pub(crate) fn lru_pairs(c: &LruCache<String, usize>) -> (r: Vec<(String, usize)>)
    ensures
        r@.len() == lru_entries(*c).len(),
        forall|i: int|
            0 <= i < r@.len() ==> ((#[trigger] r@[i]).0@, r@[i].1) == lru_entries(*c)[i],
{
    c.iter().map(|(k, v)| (k.clone(), *v)).collect()
}

} // verus!
