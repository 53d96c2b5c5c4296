//! Texts addressed by byte offsets.

use vstd::prelude::*;
use vstd::string::StringSliceAdditionalSpecFns;
use vstd::utf8::{
    decode_utf8, decode_utf8_encode_utf8, encode_utf8, encode_utf8_decode_utf8,
    encode_utf8_valid_utf8, is_char_boundary, is_char_boundary_iff_not_is_continuation_byte,
    is_char_boundary_start_end_of_seq, pop_first_scalar, valid_utf8, valid_utf8_split,
};

verus! {

/// The UTF-8 bytes of a text.
pub open spec fn utf8(s: Seq<char>) -> Seq<u8> {
    encode_utf8(s)
}

/// The text between two byte offsets.
pub open spec fn byte_slice(s: Seq<char>, from: int, to: int) -> Seq<char> {
    decode_utf8(utf8(s).subrange(from, to))
}

/// `from` and `to` delimit a part of `s` that is itself a text.
pub open spec fn sliceable(s: Seq<char>, from: int, to: int) -> bool {
    &&& 0 <= from <= to <= utf8(s).len()
    &&& is_char_boundary(utf8(s), from)
    &&& is_char_boundary(utf8(s), to)
}

/// A byte of ASCII is a character of its own: characters begin at it and behind it.
pub proof fn lemma_ascii_boundaries(b: Seq<u8>, i: int)
    requires
        valid_utf8(b),
        0 <= i < b.len(),
        b[i] < 128,
    ensures
        is_char_boundary(b, i),
        is_char_boundary(b, i + 1),
{
    is_char_boundary_iff_not_is_continuation_byte(b, i);
    if i + 1 == b.len() {
        is_char_boundary_start_end_of_seq(b);
    } else {
        valid_utf8_split(b, i);
        let t = b.subrange(i, b.len() as int);
        assert(t[0] == b[i]);
        let u = pop_first_scalar(t);
        assert(u[0] == b[i + 1]);
        assert(valid_utf8(u));
        is_char_boundary_iff_not_is_continuation_byte(b, i + 1);
    }
}

/// A boundary of `b` is one of every longer prefix of `b`.
pub proof fn lemma_boundary_in_prefix(b: Seq<u8>, i: int, j: int)
    requires
        valid_utf8(b),
        0 <= i <= j <= b.len(),
        is_char_boundary(b, i),
        is_char_boundary(b, j),
    ensures
        is_char_boundary(b.subrange(0, j), i),
{
    valid_utf8_split(b, j);
    let p = b.subrange(0, j);
    if i == j {
        is_char_boundary_start_end_of_seq(p);
    } else {
        is_char_boundary_iff_not_is_continuation_byte(b, i);
        is_char_boundary_iff_not_is_continuation_byte(p, i);
        assert(p[i] == b[i]);
    }
}

/// What lies between two boundaries is valid.
pub proof fn lemma_slice_valid(b: Seq<u8>, i: int, j: int)
    requires
        valid_utf8(b),
        0 <= i <= j <= b.len(),
        is_char_boundary(b, i),
        is_char_boundary(b, j),
    ensures
        valid_utf8(b.subrange(i, j)),
{
    lemma_boundary_in_prefix(b, i, j);
    valid_utf8_split(b, j);
    let p = b.subrange(0, j);
    valid_utf8_split(p, i);
    assert(p.subrange(i, p.len() as int) =~= b.subrange(i, j));
}

/// Cuts the text between two byte offsets out of `s`.
pub fn slice_text(s: &str, from: usize, to: usize) -> (r: String)
    requires
        sliceable(s@, from as int, to as int),
    ensures
        r@ == byte_slice(s@, from as int, to as int),
        utf8(r@) == utf8(s@).subrange(from as int, to as int),
{
    proof {
        encode_utf8_valid_utf8(s@);
        lemma_boundary_in_prefix(utf8(s@), from as int, to as int);
    }
    let (head, _rest) = s.split_at(to);
    let (_front, part) = head.split_at(from);
    proof {
        assert(part.spec_bytes() =~= utf8(s@).subrange(from as int, to as int));
        encode_utf8_decode_utf8(part@);
    }
    part.to_owned()
}

/// Calls `String::from_utf8_lossy`. Bytes that are valid UTF-8 it hands back as
/// the text that they encode; of other bytes nothing is claimed.
#[verifier::external_body]
fn lossy_text(b: &[u8]) -> (r: String)
    ensures
        valid_utf8(b@) ==> r@ == decode_utf8(b@),
{
    String::from_utf8_lossy(b).into_owned()
}

/// The text that valid bytes encode.
pub fn text_from_utf8(b: &[u8]) -> (r: String)
    requires
        valid_utf8(b@),
    ensures
        r@ == decode_utf8(b@),
        utf8(r@) == b@,
{
    proof {
        decode_utf8_encode_utf8(b@);
    }
    lossy_text(b)
}

/// Whether `i` is a place where a character of `s` begins, or its end.
pub fn boundary(s: &str, i: usize) -> (r: bool)
    ensures
        r == is_char_boundary(utf8(s@), i as int),
{
    s.is_char_boundary(i)
}

/// What is cut out of a text at character boundaries has the bytes between them,
/// and two parts that follow one another make up the whole.
pub proof fn law_parts_of_a_text_add_up(s: Seq<char>, i: int, j: int)
    requires
        sliceable(s, i, j),
    ensures
        utf8(byte_slice(s, i, j)) == utf8(s).subrange(i, j),
        utf8(byte_slice(s, 0, i)) + utf8(byte_slice(s, i, j)) == utf8(byte_slice(s, 0, j)),
{
    let b = utf8(s);
    encode_utf8_valid_utf8(s);
    is_char_boundary_start_end_of_seq(b);
    lemma_slice_valid(b, i, j);
    lemma_slice_valid(b, 0, i);
    lemma_slice_valid(b, 0, j);
    decode_utf8_encode_utf8(b.subrange(i, j));
    decode_utf8_encode_utf8(b.subrange(0, i));
    decode_utf8_encode_utf8(b.subrange(0, j));
    assert(b.subrange(0, i) + b.subrange(i, j) =~= b.subrange(0, j));
}

} // verus!
