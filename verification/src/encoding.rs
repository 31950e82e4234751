//! How a text and its UTF-8 bytes go together: whatever stands at the start,
//! at the end or somewhere inside the one stands there in the other.

use vstd::prelude::*;
use vstd::utf8::*;
use crate::text::{begins_with, ends_with, includes, occurs_at};

verus! {

/// The bytes of two texts in a row are the bytes of the first, then those of
/// the second.
pub proof fn lemma_encode_concat(a: Seq<char>, b: Seq<char>)
    ensures
        encode_utf8(a + b) == encode_utf8(a) + encode_utf8(b),
    decreases a.len(),
{
    if a.len() == 0 {
        assert(a + b =~= b);
        assert(encode_utf8(a) + encode_utf8(b) =~= encode_utf8(b));
    } else {
        lemma_encode_concat(a.drop_first(), b);
        assert((a + b).drop_first() =~= a.drop_first() + b);
        assert((a + b)[0] == a[0]);
        assert(encode_utf8(a + b) =~= encode_utf8(a) + encode_utf8(b));
    }
}

/// Where valid bytes begin with valid bytes, these end between two
/// characters of the whole.
proof fn lemma_prefix_ends_at_boundary(part: Seq<u8>, whole: Seq<u8>)
    requires
        valid_utf8(part),
        valid_utf8(whole),
        begins_with(whole, part),
    ensures
        is_char_boundary(whole, part.len() as int),
    decreases part.len(),
{
    if part.len() > 0 {
        let k = length_of_first_scalar(part);
        assert(part[0] == whole.subrange(0, part.len() as int)[0]);
        assert(length_of_first_scalar(whole) == k);
        let rest = pop_first_scalar(part);
        let whole_rest = pop_first_scalar(whole);
        assert(whole_rest.subrange(0, rest.len() as int) =~= rest) by {
            assert forall|i: int| 0 <= i < rest.len() implies whole_rest[i] == rest[i] by {
                assert(whole.subrange(0, part.len() as int)[k + i] == part[k + i]);
            }
        }
        lemma_prefix_ends_at_boundary(rest, whole_rest);
    }
}

/// Where valid bytes hold valid bytes that are not empty, these begin
/// between two characters of the whole.
proof fn lemma_occurrence_begins_at_boundary(part: Seq<u8>, whole: Seq<u8>, at: int)
    requires
        valid_utf8(part),
        valid_utf8(whole),
        part.len() > 0,
        occurs_at(part, whole, at),
    ensures
        is_char_boundary(whole, at),
{
    assert(whole.subrange(at, at + part.len())[0] == part[0]);
    assert(!is_continuation_byte(part[0]));
    is_char_boundary_iff_not_is_continuation_byte(whole, at);
}

/// A text begins with another exactly where its bytes begin with the bytes
/// of the other.
pub proof fn lemma_begins_with(text: Seq<char>, part: Seq<char>)
    ensures
        begins_with(encode_utf8(text), encode_utf8(part)) == begins_with(text, part),
{
    let whole = encode_utf8(text);
    let bytes = encode_utf8(part);
    encode_utf8_valid_utf8(text);
    encode_utf8_valid_utf8(part);
    encode_utf8_decode_utf8(text);
    encode_utf8_decode_utf8(part);
    if begins_with(text, part) {
        let rest = text.subrange(part.len() as int, text.len() as int);
        assert(text =~= part + rest);
        lemma_encode_concat(part, rest);
        assert(whole.subrange(0, bytes.len() as int) =~= bytes);
    }
    if begins_with(whole, bytes) {
        let n = bytes.len() as int;
        lemma_prefix_ends_at_boundary(bytes, whole);
        decode_utf8_split(whole, n);
        let rest = decode_utf8(whole.subrange(n, whole.len() as int));
        assert(whole.subrange(0, n) == bytes);
        assert(text == part + rest);
        assert(text.subrange(0, part.len() as int) =~= part);
    }
}

/// A text ends with another exactly where its bytes end with the bytes of
/// the other.
pub proof fn lemma_ends_with(text: Seq<char>, part: Seq<char>)
    ensures
        ends_with(encode_utf8(text), encode_utf8(part)) == ends_with(text, part),
{
    let whole = encode_utf8(text);
    let bytes = encode_utf8(part);
    encode_utf8_valid_utf8(text);
    encode_utf8_valid_utf8(part);
    encode_utf8_decode_utf8(text);
    encode_utf8_decode_utf8(part);
    if ends_with(text, part) {
        let front = text.subrange(0, text.len() - part.len());
        assert(text.subrange(text.len() - part.len(), text.len() as int) == part);
        assert(text =~= front + part);
        lemma_encode_concat(front, part);
        assert(whole.subrange(whole.len() - bytes.len(), whole.len() as int) =~= bytes);
    }
    if ends_with(whole, bytes) {
        let at = whole.len() - bytes.len();
        if bytes.len() == 0 {
            is_char_boundary_start_end_of_seq(whole);
        } else {
            lemma_occurrence_begins_at_boundary(bytes, whole, at);
        }
        decode_utf8_split(whole, at);
        let front = decode_utf8(whole.subrange(0, at));
        assert(whole.subrange(at, whole.len() as int) == bytes);
        assert(text == front + part);
        assert(text.subrange(text.len() - part.len(), text.len() as int) =~= part);
    }
}

/// A text holds another exactly where its bytes hold the bytes of the other.
pub proof fn lemma_includes(text: Seq<char>, part: Seq<char>)
    ensures
        includes(encode_utf8(text), encode_utf8(part)) == includes(text, part),
{
    let whole = encode_utf8(text);
    let bytes = encode_utf8(part);
    encode_utf8_valid_utf8(text);
    encode_utf8_valid_utf8(part);
    encode_utf8_decode_utf8(text);
    encode_utf8_decode_utf8(part);
    if includes(text, part) {
        let at = choose|at: int| occurs_at(part, text, at);
        let front = text.subrange(0, at);
        let back = text.subrange(at + part.len(), text.len() as int);
        assert(text.subrange(at, at + part.len()) == part);
        assert(text =~= front + part + back);
        lemma_encode_concat(front + part, back);
        lemma_encode_concat(front, part);
        let k = encode_utf8(front).len() as int;
        assert(whole.subrange(k, k + bytes.len()) =~= bytes);
        assert(occurs_at(bytes, whole, k));
    }
    if includes(whole, bytes) {
        if bytes.len() == 0 {
            if part.len() > 0 {
                encode_utf8_first_scalar(part);
            }
            assert(text.subrange(0, 0) =~= part);
            assert(occurs_at(part, text, 0));
        } else {
            let at = choose|at: int| occurs_at(bytes, whole, at);
            lemma_occurrence_begins_at_boundary(bytes, whole, at);
            valid_utf8_split(whole, at);
            decode_utf8_split(whole, at);
            let front = decode_utf8(whole.subrange(0, at));
            let tail = whole.subrange(at, whole.len() as int);
            let back = decode_utf8(tail);
            decode_utf8_encode_utf8(tail);
            assert(tail.subrange(0, bytes.len() as int) =~= whole.subrange(at, at + bytes.len()));
            assert(begins_with(encode_utf8(back), bytes));
            lemma_begins_with(back, part);
            assert(text == front + back);
            assert(text.subrange(front.len() as int, (front.len() + part.len()) as int) =~= back.subrange(
                0,
                part.len() as int,
            ));
            assert(occurs_at(part, text, front.len() as int));
        }
    }
}

/// The byte that encodes a `.`.
pub const DOT: u8 = 0x2e;

/// The bytes of a text that holds a `.` hold the byte of a `.`.
pub proof fn lemma_dot_has_its_byte(text: Seq<char>, at: int)
    requires
        0 <= at < text.len(),
        text[at] == '.',
    ensures
        exists|k: int| 0 <= k < encode_utf8(text).len() && encode_utf8(text)[k] == DOT,
{
    let front = text.subrange(0, at);
    let back = text.subrange(at + 1, text.len() as int);
    let dot = seq!['.'];
    assert(text =~= front + dot + back);
    lemma_encode_concat(front + dot, back);
    lemma_encode_concat(front, dot);
    assert(encode_utf8(dot) =~= seq![DOT]) by {
        assert(dot.drop_first() =~= Seq::<char>::empty());
        assert(0x2eu32 & 0x7f == 0x2e) by (bit_vector);
        reveal_with_fuel(encode_utf8, 2);
    }
    let k = encode_utf8(front).len() as int;
    assert(encode_utf8(text)[k] == DOT);
}

/// Where the last byte of a `.` in the bytes of a key stands at `at`, the key
/// is what the bytes before it decode to, a `.`, and what the bytes behind it
/// decode to; and the latter holds no `.`.
pub proof fn lemma_split_at_last_dot(key: Seq<char>, at: int)
    requires
        0 <= at < encode_utf8(key).len(),
        encode_utf8(key)[at] == DOT,
        forall|j: int| at < j < encode_utf8(key).len() ==> encode_utf8(key)[j] != DOT,
    ensures
        is_char_boundary(encode_utf8(key), at),
        valid_utf8(encode_utf8(key).subrange(at, encode_utf8(key).len() as int)),
        is_char_boundary(encode_utf8(key).subrange(at, encode_utf8(key).len() as int), 1),
        ({
            let bytes = encode_utf8(key);
            let target = decode_utf8(bytes.subrange(0, at));
            let kind = decode_utf8(bytes.subrange(at + 1, bytes.len() as int));
            &&& key == target + seq!['.'] + kind
            &&& encode_utf8(target) == bytes.subrange(0, at)
            &&& encode_utf8(kind) == bytes.subrange(at + 1, bytes.len() as int)
            &&& (target.len() == 0) == (at == 0)
            &&& (kind.len() == 0) == (at == bytes.len() - 1)
            &&& forall|j: int| 0 <= j < kind.len() ==> kind[j] != '.'
        }),
{
    let bytes = encode_utf8(key);
    encode_utf8_valid_utf8(key);
    encode_utf8_decode_utf8(key);
    is_char_boundary_iff_not_is_continuation_byte(bytes, at);
    valid_utf8_split(bytes, at);
    decode_utf8_split(bytes, at);
    let head = bytes.subrange(0, at);
    let tail = bytes.subrange(at, bytes.len() as int);
    let rest = bytes.subrange(at + 1, bytes.len() as int);
    assert(tail[0] == DOT);
    assert(pop_first_scalar(tail) =~= rest);
    assert(0x2eu8 & 0x7f == 0x2e) by (bit_vector);
    assert(decode_first_scalar(tail) == 0x2e);
    assert(is_char_boundary(tail, 1)) by {
        reveal_with_fuel(is_char_boundary, 2);
    }
    let target = decode_utf8(head);
    let kind = decode_utf8(rest);
    assert(decode_utf8(tail) =~= seq!['.'] + kind);
    assert(key =~= target + seq!['.'] + kind);
    decode_utf8_encode_utf8(head);
    decode_utf8_encode_utf8(rest);
    assert forall|j: int| 0 <= j < kind.len() implies kind[j] != '.' by {
        if kind[j] == '.' {
            lemma_dot_has_its_byte(kind, j);
            let k = choose|k: int| 0 <= k < rest.len() && rest[k] == DOT;
            assert(bytes[at + 1 + k] == DOT);
        }
    }
}

} // verus!
