//! What the library has from `serde_json`: its `Value` type, carried through
//! untouched as an entry's metadata, and the JSON text of keys and values.
use vstd::prelude::*;

verus! {

#[verifier::external_type_specification]
#[verifier::external_body]
pub struct ExJsonValue(serde_json::Value);

/// The lower-case hexadecimal digit of `d`, for `d` below 16.
pub open spec fn hex_digit(d: u32) -> char {
    if d < 10 {
        (48 + d) as char
    } else {
        (87 + d) as char
    }
}

/// How `serde_json` writes one character of a string: a quote and a
/// backslash after a backslash; the control characters with a short form
/// (backspace, tab, line feed, form feed, carriage return) as that form; the
/// other characters below U+0020 as `\u00` and two lower-case hexadecimal
/// digits; every other character as itself.
pub open spec fn json_escape_char(c: char) -> Seq<char> {
    let n = c as u32;
    if c == '"' {
        seq!['\\', '"']
    } else if c == '\\' {
        seq!['\\', '\\']
    } else if n == 8 {
        seq!['\\', 'b']
    } else if n == 9 {
        seq!['\\', 't']
    } else if n == 10 {
        seq!['\\', 'n']
    } else if n == 12 {
        seq!['\\', 'f']
    } else if n == 13 {
        seq!['\\', 'r']
    } else if n < 32 {
        seq!['\\', 'u', '0', '0', hex_digit(n / 16), hex_digit(n % 16)]
    } else {
        seq![c]
    }
}

/// The JSON text of the string `s`, as `serde_json::to_string` writes it:
/// each character escaped by `json_escape_char`, between double quotes.
pub open spec fn json_str_text(s: Seq<char>) -> Seq<char> {
    seq!['"'] + s.map_values(|c: char| json_escape_char(c)).flatten() + seq!['"']
}

/// `serde_json::to_string` on a string. Writing a string into the `Vec`
/// that `to_string` uses cannot fail, so the result is its JSON text,
/// `json_str_text`, which like every `String` is at most `isize::MAX` bytes
/// long in UTF-8.
#[verifier::external_body]
pub(crate) fn json_text_of_str(s: &String) -> (r: Result<String, String>)
    ensures
        r is Ok,
        r->Ok_0@ == json_str_text(s@),
        vstd::utf8::encode_utf8(r->Ok_0@).len() <= isize::MAX,
{
    match serde_json::to_string(s) {
        Ok(t) => Ok(t),
        Err(e) => Err(e.to_string()),
    }
}

/// `serde_json::to_string` on a value: its JSON text, or the error's
/// message. Of the text only its bound as a `String` is promised: at most
/// `isize::MAX` bytes of UTF-8; the rest depends on how `V` implements
/// `Serialize`.
#[verifier::external_body]
pub(crate) fn json_text_of<V: serde::Serialize>(value: &V) -> (r: Result<String, String>)
    ensures
        r matches Ok(t) ==> vstd::utf8::encode_utf8(t@).len() <= isize::MAX,
{
    match serde_json::to_string(value) {
        Ok(t) => Ok(t),
        Err(e) => Err(e.to_string()),
    }
}

/// The JSON text that `serde_json::to_string` writes for `v`.
pub uninterp spec fn value_json_text(v: serde_json::Value) -> Seq<char>;

/// `serde_json::to_string` on a `serde_json::Value`: its JSON text, named
/// `value_json_text`. A `Value` writes only string keys, numbers that always
/// have a text, and strings into the `Vec` that `to_string` uses, so this
/// cannot fail; the text, like every `String`, is at most `isize::MAX`
/// bytes long in UTF-8.
#[verifier::external_body]
pub(crate) fn json_text_of_value(value: &serde_json::Value) -> (r: Result<String, String>)
    ensures
        r is Ok,
        r->Ok_0@ == value_json_text(*value),
        vstd::utf8::encode_utf8(r->Ok_0@).len() <= isize::MAX,
{
    match serde_json::to_string(value) {
        Ok(t) => Ok(t),
        Err(e) => Err(e.to_string()),
    }
}

/// The decimal digit `d`, for `d` below 10.
pub open spec fn digit_char(d: nat) -> char {
    (48 + d) as char
}

/// The decimal text of `n`, without leading zeros.
pub open spec fn dec_text(n: nat) -> Seq<char>
    decreases n,
{
    if n < 10 {
        seq![digit_char(n)]
    } else {
        dec_text(n / 10).push(digit_char(n % 10))
    }
}

/// The decimal text of `i`, after a minus sign when it is negative.
pub open spec fn int_text(i: int) -> Seq<char> {
    if i < 0 {
        seq!['-'] + dec_text((-i) as nat)
    } else {
        dec_text(i as nat)
    }
}

/// The JSON text of `b`.
pub open spec fn bool_text(b: bool) -> Seq<char> {
    if b {
        seq!['t', 'r', 'u', 'e']
    } else {
        seq!['f', 'a', 'l', 's', 'e']
    }
}

/// `serde_json::to_string` on a `u64`: the number in decimal (written by
/// `itoa`); writing it into the `Vec` that `to_string` uses cannot fail.
#[verifier::external_body]
fn json_text_of_u64(value: &u64) -> (r: Result<String, String>)
    ensures
        r is Ok,
        r->Ok_0@ == dec_text(*value as nat),
{
    match serde_json::to_string(value) {
        Ok(t) => Ok(t),
        Err(e) => Err(e.to_string()),
    }
}

/// `serde_json::to_string` on an `i64`: the number in decimal, after a minus
/// sign when negative (written by `itoa`); it cannot fail.
#[verifier::external_body]
fn json_text_of_i64(value: &i64) -> (r: Result<String, String>)
    ensures
        r is Ok,
        r->Ok_0@ == int_text(*value as int),
{
    match serde_json::to_string(value) {
        Ok(t) => Ok(t),
        Err(e) => Err(e.to_string()),
    }
}

/// `serde_json::to_string` on a `bool`: `true` or `false`; it cannot fail.
#[verifier::external_body]
fn json_text_of_bool(value: &bool) -> (r: Result<String, String>)
    ensures
        r is Ok,
        r->Ok_0@ == bool_text(*value),
{
    match serde_json::to_string(value) {
        Ok(t) => Ok(t),
        Err(e) => Err(e.to_string()),
    }
}

/// A value that a cache can write to a remote store as JSON text.
pub trait JsonText {
    /// The JSON text of the value, or why it has none.
    fn to_json(&self) -> Result<String, String>;
}

/// `r` is what `to_json` gives for `value`.
pub open spec fn json_text_is<V: JsonText>(value: V, r: Result<String, String>) -> bool {
    call_ensures(V::to_json, (&value,), r)
}

impl JsonText for String {
    /// The string's JSON text, `json_str_text`.
    fn to_json(&self) -> (r: Result<String, String>)
        ensures
            r is Ok,
            r->Ok_0@ == json_str_text(self@),
    {
        json_text_of_str(self)
    }
}

impl JsonText for u64 {
    /// The number in decimal.
    fn to_json(&self) -> (r: Result<String, String>)
        ensures
            r is Ok,
            r->Ok_0@ == dec_text(*self as nat),
    {
        json_text_of_u64(self)
    }
}

impl JsonText for i64 {
    /// The number in decimal, after a minus sign when negative.
    fn to_json(&self) -> (r: Result<String, String>)
        ensures
            r is Ok,
            r->Ok_0@ == int_text(*self as int),
    {
        json_text_of_i64(self)
    }
}

impl JsonText for bool {
    /// `true` or `false`.
    fn to_json(&self) -> (r: Result<String, String>)
        ensures
            r is Ok,
            r->Ok_0@ == bool_text(*self),
    {
        json_text_of_bool(self)
    }
}

impl JsonText for serde_json::Value {
    /// The value's JSON text, `value_json_text`.
    fn to_json(&self) -> (r: Result<String, String>)
        ensures
            r is Ok,
            r->Ok_0@ == value_json_text(*self),
    {
        json_text_of_value(self)
    }
}

/// The decimal text of a number holds only digits, all ASCII, one per
/// digit counted by its length.
pub proof fn lemma_dec_text_ascii(n: nat)
    ensures
        vstd::utf8::is_ascii_chars(dec_text(n)),
        vstd::utf8::encode_utf8(dec_text(n)).len() == dec_text(n).len(),
    decreases n,
{
    if n >= 10 {
        lemma_dec_text_ascii(n / 10);
        let t = dec_text(n);
        assert forall|i: int| 0 <= i < t.len() implies '\0' <= #[trigger] t[i] <= '\u{7f}' by {
            if i < t.len() - 1 {
                assert(t[i] == dec_text(n / 10)[i]);
            }
        }
    }
    vstd::utf8::is_ascii_chars_encode_utf8(dec_text(n));
}

/// The decimal text of an integer is ASCII.
pub proof fn lemma_int_text_ascii(i: int)
    ensures
        vstd::utf8::encode_utf8(int_text(i)).len() == int_text(i).len(),
{
    if i < 0 {
        let d = dec_text((-i) as nat);
        lemma_dec_text_ascii((-i) as nat);
        let t = int_text(i);
        assert forall|j: int| 0 <= j < t.len() implies '\0' <= #[trigger] t[j] <= '\u{7f}' by {
            if j > 0 {
                assert(t[j] == d[j - 1]);
            }
        }
        vstd::utf8::is_ascii_chars_encode_utf8(t);
    } else {
        lemma_dec_text_ascii(i as nat);
    }
}

/// The text of a flag is ASCII.
pub proof fn lemma_bool_text_ascii(b: bool)
    ensures
        vstd::utf8::encode_utf8(bool_text(b)).len() == bool_text(b).len(),
{
    let t = bool_text(b);
    assert forall|j: int| 0 <= j < t.len() implies '\0' <= #[trigger] t[j] <= '\u{7f}' by {}
    vstd::utf8::is_ascii_chars_encode_utf8(t);
}

} // verus!
