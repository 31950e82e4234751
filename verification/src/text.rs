//! Byte strings and texts: comparison, search, joining, and the rendering of
//! integers and truth values.

use vstd::prelude::*;
use vstd::string::*;
use vstd::utf8::*;
use crate::encoding::{lemma_begins_with, lemma_ends_with, lemma_includes};

verus! {

/// `needle` stands in `hay` at offset `at`.
pub open spec fn occurs_at<T>(needle: Seq<T>, hay: Seq<T>, at: int) -> bool {
    &&& 0 <= at
    &&& at + needle.len() <= hay.len()
    &&& hay.subrange(at, at + needle.len()) == needle
}

/// `hay` begins with `needle`.
pub open spec fn begins_with<T>(hay: Seq<T>, needle: Seq<T>) -> bool {
    occurs_at(needle, hay, 0)
}

/// `hay` ends with `needle`.
pub open spec fn ends_with<T>(hay: Seq<T>, needle: Seq<T>) -> bool {
    occurs_at(needle, hay, hay.len() - needle.len())
}

/// `needle` stands somewhere in `hay` as an unbroken run.
pub open spec fn includes<T>(hay: Seq<T>, needle: Seq<T>) -> bool {
    exists|at: int| occurs_at(needle, hay, at)
}

/// Whether `needle` stands in `hay` at offset `at`.
pub fn bytes_occur_at(needle: &[u8], hay: &[u8], at: usize) -> (r: bool)
    ensures
        r == occurs_at(needle@, hay@, at as int),
{
    let n = needle.len();
    let h = hay.len();
    if at > h || n > h - at {
        return false;
    }
    let mut i: usize = 0;
    while i < n
        invariant
            n == needle@.len(),
            h == hay@.len(),
            at + n <= h,
            i <= n,
            forall|j: int| 0 <= j < i ==> hay@[at + j] == needle@[j],
        decreases n - i,
    {
        if hay[at + i] != needle[i] {
            proof {
                let window = hay@.subrange(at as int, at + n);
                assert(window[i as int] == hay@[at + i]);
            }
            return false;
        }
        i += 1;
    }
    assert(hay@.subrange(at as int, at + n) =~= needle@);
    true
}

/// Whether two byte strings are the same.
pub fn bytes_equal(a: &[u8], b: &[u8]) -> (r: bool)
    ensures
        r == (a@ == b@),
{
    if a.len() != b.len() {
        return false;
    }
    let r = bytes_occur_at(a, b, 0);
    proof {
        assert(b@.subrange(0, b@.len() as int) =~= b@);
    }
    r
}

/// Whether `hay` begins with `needle`.
pub fn bytes_begin_with(hay: &[u8], needle: &[u8]) -> (r: bool)
    ensures
        r == begins_with(hay@, needle@),
{
    bytes_occur_at(needle, hay, 0)
}

/// Whether `hay` ends with `needle`.
pub fn bytes_end_with(hay: &[u8], needle: &[u8]) -> (r: bool)
    ensures
        r == ends_with(hay@, needle@),
{
    if needle.len() > hay.len() {
        return false;
    }
    bytes_occur_at(needle, hay, hay.len() - needle.len())
}

/// Whether `needle` stands somewhere in `hay`.
pub fn bytes_include(hay: &[u8], needle: &[u8]) -> (r: bool)
    ensures
        r == includes(hay@, needle@),
{
    if needle.len() > hay.len() {
        return false;
    }
    let last: usize = hay.len() - needle.len();
    let mut at: usize = 0;
    loop
        invariant
            last == hay@.len() - needle@.len(),
            at <= last,
            forall|k: int| 0 <= k < at ==> !occurs_at(needle@, hay@, k),
        decreases last - at,
    {
        if bytes_occur_at(needle, hay, at) {
            return true;
        }
        if at == last {
            return false;
        }
        at += 1;
    }
}

/// Whether two texts are the same, character for character.
pub fn same_text(a: &str, b: &str) -> (r: bool)
    ensures
        r == (a@ == b@),
{
    let r = bytes_equal(a.as_bytes(), b.as_bytes());
    proof {
        encode_utf8_decode_utf8(a@);
        encode_utf8_decode_utf8(b@);
    }
    r
}

/// Whether a text begins with another.
pub fn text_begins_with(text: &str, part: &str) -> (r: bool)
    ensures
        r == begins_with(text@, part@),
{
    proof {
        lemma_begins_with(text@, part@);
    }
    bytes_begin_with(text.as_bytes(), part.as_bytes())
}

/// Whether a text ends with another.
pub fn text_ends_with(text: &str, part: &str) -> (r: bool)
    ensures
        r == ends_with(text@, part@),
{
    proof {
        lemma_ends_with(text@, part@);
    }
    bytes_end_with(text.as_bytes(), part.as_bytes())
}

/// Whether a text holds another somewhere.
pub fn text_includes(text: &str, part: &str) -> (r: bool)
    ensures
        r == includes(text@, part@),
{
    proof {
        lemma_includes(text@, part@);
    }
    bytes_include(text.as_bytes(), part.as_bytes())
}

/// The texts of a list of strings.
pub open spec fn texts(strings: Seq<String>) -> Seq<Seq<char>> {
    Seq::new(strings.len(), |i: int| strings[i]@)
}

/// The parts in their order, with the separator between each two.
pub open spec fn joined(parts: Seq<Seq<char>>, separator: Seq<char>) -> Seq<char>
    decreases parts.len(),
{
    if parts.len() == 0 {
        Seq::empty()
    } else if parts.len() == 1 {
        parts[0]
    } else {
        joined(parts.drop_last(), separator) + separator + parts.last()
    }
}

/// Joins the parts with the separator between each two.
pub fn join(parts: &Vec<String>, separator: &str) -> (text: String)
    ensures
        text@ == joined(texts(parts@), separator@),
{
    let mut text = String::new();
    let mut i: usize = 0;
    while i < parts.len()
        invariant
            i <= parts.len(),
            text@ == joined(texts(parts@).take(i as int), separator@),
        decreases parts.len() - i,
    {
        if i > 0 {
            text.append(separator);
        }
        text.append(parts[i].as_str());
        proof {
            let all = texts(parts@);
            assert(all.take(i + 1).drop_last() =~= all.take(i as int));
            assert(all.take(i + 1).last() == parts@[i as int]@);
            if i == 0 {
                assert(text@ =~= all.take(1)[0]);
            }
        }
        i += 1;
    }
    proof {
        assert(texts(parts@).take(parts.len() as int) =~= texts(parts@));
    }
    text
}

/// The character of one decimal digit.
pub open spec fn digit_char(d: int) -> char {
    if d == 0 {
        '0'
    } else if d == 1 {
        '1'
    } else if d == 2 {
        '2'
    } else if d == 3 {
        '3'
    } else if d == 4 {
        '4'
    } else if d == 5 {
        '5'
    } else if d == 6 {
        '6'
    } else if d == 7 {
        '7'
    } else if d == 8 {
        '8'
    } else {
        '9'
    }
}

/// The decimal digits of a natural number, most significant first, without
/// leading zeros.
pub open spec fn decimal_digits(n: nat) -> Seq<char>
    decreases n,
{
    if n < 10 {
        seq![digit_char(n as int)]
    } else {
        decimal_digits(n / 10).push(digit_char((n % 10) as int))
    }
}

/// The decimal rendering of an integer: a minus sign for a negative one, then
/// the digits of its magnitude.
pub open spec fn decimal(i: int) -> Seq<char> {
    if i < 0 {
        seq!['-'] + decimal_digits((-i) as nat)
    } else {
        decimal_digits(i as nat)
    }
}

/// The rendering of a truth value.
pub open spec fn bool_text(b: bool) -> Seq<char> {
    if b {
        "true"@
    } else {
        "false"@
    }
}

fn digit_str(d: u64) -> (s: &'static str)
    requires
        d < 10,
    ensures
        s@ == seq![digit_char(d as int)],
{
    proof {
        reveal_strlit("0");
        reveal_strlit("1");
        reveal_strlit("2");
        reveal_strlit("3");
        reveal_strlit("4");
        reveal_strlit("5");
        reveal_strlit("6");
        reveal_strlit("7");
        reveal_strlit("8");
        reveal_strlit("9");
    }
    let s = if d == 0 {
        "0"
    } else if d == 1 {
        "1"
    } else if d == 2 {
        "2"
    } else if d == 3 {
        "3"
    } else if d == 4 {
        "4"
    } else if d == 5 {
        "5"
    } else if d == 6 {
        "6"
    } else if d == 7 {
        "7"
    } else if d == 8 {
        "8"
    } else {
        "9"
    };
    assert(s@ =~= seq![digit_char(d as int)]);
    s
}

fn digits_to_text(n: u64) -> (s: String)
    ensures
        s@ == decimal_digits(n as nat),
    decreases n,
{
    if n < 10 {
        digit_str(n).to_owned()
    } else {
        let mut s = digits_to_text(n / 10);
        s.append(digit_str(n % 10));
        s
    }
}

/// Renders an integer in decimal.
pub fn integer_to_text(i: i64) -> (s: String)
    ensures
        s@ == decimal(i as int),
{
    if i < 0 {
        let magnitude: u64 = (-(i + 1)) as u64 + 1;
        let mut s = "-".to_owned();
        proof {
            reveal_strlit("-");
            assert("-"@ =~= seq!['-']);
        }
        let digits = digits_to_text(magnitude);
        s.append(digits.as_str());
        s
    } else {
        digits_to_text(i as u64)
    }
}

/// Renders a truth value as `true` or `false`.
pub fn bool_to_text(b: bool) -> (s: String)
    ensures
        s@ == bool_text(b),
{
    if b {
        "true".to_owned()
    } else {
        "false".to_owned()
    }
}

/// The text that bytes which are not valid UTF-8 are read as: their valid
/// parts, with a replacement character for each invalid run.
pub uninterp spec fn lossy_decode(bytes: Seq<u8>) -> Seq<char>;

/// The text that a byte string is read as: the characters that it encodes
/// where it is valid UTF-8, and otherwise its lossy reading.
pub open spec fn text_of_bytes(bytes: Seq<u8>) -> Seq<char> {
    if valid_utf8(bytes) {
        decode_utf8(bytes)
    } else {
        lossy_decode(bytes)
    }
}

/// Calls `String::from_utf8_lossy`. For valid UTF-8 the result is the text
/// that the bytes encode; for other bytes it is that function's reading of
/// them, which depends on the bytes alone.
#[verifier::external_body]
pub(crate) fn decode_lossy(bytes: &[u8]) -> (s: String)
    ensures
        valid_utf8(bytes@) ==> s@ == decode_utf8(bytes@),
        !valid_utf8(bytes@) ==> s@ == lossy_decode(bytes@),
{
    String::from_utf8_lossy(bytes).into_owned()
}

/// The text between double quotes, with the characters escaped that the
/// `Debug` rendering of a string escapes.
pub uninterp spec fn quoted(text: Seq<char>) -> Seq<char>;

/// Formats a string with `{:?}`. The result is that rendering of the text.
#[verifier::external_body]
pub(crate) fn quote(text: &str) -> (s: String)
    ensures
        s@ == quoted(text@),
{
    format!("{:?}", text)
}

} // verus!
