//! The estimated size of a cached value: the length of its JSON text plus
//! the size of a `String`, or, for a value that does not serialize, the size
//! of the value itself.
use vstd::prelude::*;
use crate::json::{
    bool_text, dec_text, int_text, json_str_text, json_text_of, json_text_of_str, lemma_bool_text_ascii,
    lemma_dec_text_ascii, lemma_int_text_ascii, json_text_of_value, value_json_text, JsonText,
};

verus! {

/// The length in bytes of the UTF-8 encoding of `s`.
pub open spec fn utf8_len(s: Seq<char>) -> nat {
    vstd::utf8::encode_utf8(s).len()
}

/// The size estimate of a value whose JSON text is `json_len` bytes long:
/// that length plus the size of a `String`.
pub open spec fn json_size(json_len: int) -> int {
    json_len + vstd::layout::size_of::<String>()
}

/// The estimate from the length of the JSON text of `value`, where it has
/// one, or else from the size of `value`.
pub fn size_from_json_len<V>(len: Option<usize>, value: &V) -> (r: usize)
    requires
        len matches Some(n) ==> n <= isize::MAX,
    ensures
        r == match len {
            Some(n) => json_size(n as int),
            None => vstd::layout::spec_size_of_val::<V>(value) as int,
        },
{
    match len {
        Some(n) => {
            vstd::layout::layout_for_type_is_valid::<String>();
            n + core::mem::size_of::<String>()
        },
        None => core::mem::size_of_val(value),
    }
}

/// Estimates how many bytes `value` takes in the cache: `json_size` of the
/// length of its JSON text, or, where it does not serialize, its own size.
pub fn estimate_size<V: serde::Serialize>(value: &V) -> (r: usize)
    ensures
        (exists|n: usize| n <= isize::MAX && r == #[trigger] json_size(n as int))
            || r == vstd::layout::spec_size_of_val::<V>(value),
{
    let len = match json_text_of(value) {
        Ok(text) => Some(text.as_str().len()),
        Err(_) => None,
    };
    let r = size_from_json_len(len, value);
    proof {
        if let Some(n) = len {
            assert(r == json_size(n as int));
        }
    }
    r
}

/// A value whose size in a cache can be estimated.
pub trait SizeEstimate {
    /// The estimated size in bytes.
    fn estimated_size(&self) -> usize;
}

/// `size` is what `estimated_size` gives for `value`.
pub open spec fn estimated_size_of<V: SizeEstimate>(value: V, size: usize) -> bool {
    call_ensures(V::estimated_size, (&value,), size)
}

/// Each of `sizes` is what `estimated_size` gives for the value at its
/// position in `values`.
pub open spec fn sizes_of<V: SizeEstimate>(values: Seq<V>, sizes: Seq<usize>) -> bool {
    &&& sizes.len() == values.len()
    &&& forall|j: int| 0 <= j < values.len() ==> estimated_size_of(values[j], #[trigger] sizes[j])
}

/// The decimal text of a number of at most 64 bits has at most 20 digits.
proof fn lemma_dec_text_bound(n: nat)
    requires
        n <= u64::MAX,
    ensures
        dec_text(n).len() <= 20,
{
    assert(pow10(20) == 100_000_000_000_000_000_000) by {
        reveal_with_fuel(pow10, 21);
    }
    lemma_dec_text_below(n, 20);
}

/// A number below `10^k` has at most `k` digits (for `k >= 1`).
proof fn lemma_dec_text_below(n: nat, k: nat)
    requires
        k >= 1,
        n < pow10(k),
    ensures
        dec_text(n).len() <= k,
    decreases k,
{
    if n >= 10 {
        assert(k >= 2) by {
            if k == 1 {
                assert(pow10(1) == 10) by {
                    reveal_with_fuel(pow10, 2);
                }
            }
        }
        assert(n / 10 < pow10((k - 1) as nat)) by {
            assert(pow10(k) == 10 * pow10((k - 1) as nat));
        }
        lemma_dec_text_below(n / 10, (k - 1) as nat);
    }
}

/// `10^k`.
spec fn pow10(k: nat) -> nat
    decreases k,
{
    if k == 0 {
        1
    } else {
        10 * pow10((k - 1) as nat)
    }
}

impl SizeEstimate for String {
    /// `json_size` of the UTF-8 length of the string's JSON text.
    fn estimated_size(&self) -> (r: usize)
        ensures
            r == json_size(utf8_len(json_str_text(self@)) as int),
    {
        let text = json_text_of_str(self).unwrap();
        let n = text.as_str().len();
        size_from_json_len(Some(n), self)
    }
}

impl SizeEstimate for serde_json::Value {
    /// `json_size` of the UTF-8 length of the value's JSON text.
    fn estimated_size(&self) -> (r: usize)
        ensures
            r == json_size(utf8_len(value_json_text(*self)) as int),
    {
        let text = json_text_of_value(self).unwrap();
        size_from_json_len(Some(text.as_str().len()), self)
    }
}

impl SizeEstimate for u64 {
    /// `json_size` of the length of the decimal text.
    fn estimated_size(&self) -> (r: usize)
        ensures
            r == json_size(dec_text(*self as nat).len() as int),
    {
        proof {
            lemma_dec_text_bound(*self as nat);
            lemma_dec_text_ascii(*self as nat);
        }
        let text = self.to_json().unwrap();
        size_from_json_len(Some(text.as_str().len()), self)
    }
}

impl SizeEstimate for i64 {
    /// `json_size` of the length of the decimal text.
    fn estimated_size(&self) -> (r: usize)
        ensures
            r == json_size(int_text(*self as int).len() as int),
    {
        proof {
            if *self < 0 {
                lemma_dec_text_bound((-(*self as int)) as nat);
            } else {
                lemma_dec_text_bound(*self as nat);
            }
            lemma_int_text_ascii(*self as int);
        }
        let text = self.to_json().unwrap();
        size_from_json_len(Some(text.as_str().len()), self)
    }
}

impl SizeEstimate for bool {
    /// `json_size` of the length of `true` or `false`.
    fn estimated_size(&self) -> (r: usize)
        ensures
            r == json_size(bool_text(*self).len() as int),
    {
        proof {
            lemma_bool_text_ascii(*self);
        }
        let text = self.to_json().unwrap();
        size_from_json_len(Some(text.as_str().len()), self)
    }
}

} // verus!
