//! UTF-8 facts on top of `vstd::utf8`, and the trusted conversions between
//! byte sequences and `std`'s text types.
//!
//! `vstd::utf8` models encoding and decoding of character sequences.  The
//! lemmas here extend it with what the text buffer needs: the encoding is a
//! homomorphism for concatenation, its length is bounded, and the encoding
//! of the last character of a text can be recognized and decoded from the
//! tail bytes of the encoded text.

use vstd::prelude::*;
use vstd::utf8::*;

verus! {

/// Encoding a concatenation encodes the parts one after the other.
pub proof fn lemma_encode_utf8_concat(s: Seq<char>, t: Seq<char>)
    ensures
        encode_utf8(s + t) == encode_utf8(s) + encode_utf8(t),
    decreases s.len(),
{
    if s.len() == 0 {
        assert(s + t =~= t);
        assert(encode_utf8(s) + encode_utf8(t) =~= encode_utf8(t));
    } else {
        lemma_encode_utf8_concat(s.drop_first(), t);
        assert((s + t).drop_first() =~= s.drop_first() + t);
        assert((s + t)[0] == s[0]);
        assert(encode_utf8(s + t) =~= encode_utf8(s) + encode_utf8(t));
    }
}

/// The encoding of a one-character text is the encoding of its scalar.
pub proof fn lemma_encode_utf8_singleton(c: char)
    ensures
        encode_utf8(seq![c]) == encode_scalar(c as u32),
{
    let s = seq![c];
    assert(s[0] == c);
    assert(s.drop_first() =~= Seq::<char>::empty());
    assert(encode_utf8(s) == encode_scalar(c as u32) + encode_utf8(s.drop_first()));
    assert(encode_scalar(c as u32) + encode_utf8(s.drop_first()) =~= encode_scalar(c as u32));
}

/// Appending one character appends that character's scalar encoding.
pub proof fn lemma_encode_utf8_snoc(s: Seq<char>, c: char)
    ensures
        encode_utf8(s.push(c)) == encode_utf8(s) + encode_scalar(c as u32),
{
    assert(s.push(c) =~= s + seq![c]);
    lemma_encode_utf8_concat(s, seq![c]);
    lemma_encode_utf8_singleton(c);
}

/// A scalar's encoding takes between one and four bytes.
pub proof fn lemma_encode_scalar_len(v: u32)
    requires
        is_scalar(v),
    ensures
        1 <= encode_scalar(v).len() <= 4,
{
}

/// An encoded text has at least one byte per character and at most four.
pub proof fn lemma_encode_utf8_len(s: Seq<char>)
    ensures
        s.len() <= encode_utf8(s).len() <= 4 * s.len(),
    decreases s.len(),
{
    if s.len() == 0 {
    } else {
        char_is_scalar(s[0]);
        lemma_encode_scalar_len(s[0] as u32);
        lemma_encode_utf8_len(s.drop_first());
    }
}

/// The tail bytes of an encoded text hold exactly the last character: they
/// are recognized by `length_of_last_scalar`, they decode to that character
/// through `decode_last_scalar`, and the bytes before them encode the text
/// without it.
pub proof fn lemma_last_scalar(t: Seq<char>)
    requires
        t.len() > 0,
    ensures
        ({
            let b = encode_utf8(t);
            let e = encode_scalar(t.last() as u32);
            &&& 1 <= e.len() <= 4
            &&& b.len() == encode_utf8(t.drop_last()).len() + e.len()
            &&& length_of_last_scalar(b) == e.len()
            &&& decode_last_scalar(b) == t.last() as u32
            &&& b.take(b.len() - e.len()) == encode_utf8(t.drop_last())
            &&& forall|i: int|
                b.len() - e.len() <= i < b.len() ==> b[i] == e[i - (b.len() - e.len())]
        }),
{
    let c = t.last();
    let p = encode_utf8(t.drop_last());
    let e = encode_scalar(c as u32);
    let b = encode_utf8(t);
    char_is_scalar(c);
    lemma_encode_scalar_len(c as u32);
    assert(t.drop_last().push(c) =~= t);
    lemma_encode_utf8_snoc(t.drop_last(), c);
    assert(b == p + e);
    lemma_encode_utf8_singleton(c);
    encode_utf8_first_scalar(seq![c]);
    let n = b.len() as int;
    let k = e.len() as int;
    assert(b.take(n - k) =~= p);
    assert(forall|i: int| 0 <= i < k ==> b[n - k + i] == e[i]);
    assert(length_of_first_scalar(e) == k);
    assert(decode_first_scalar(e) == c as u32);
    if is_leading_byte_width_1(e[0]) {
        assert(k == 1);
        assert(!is_continuation_byte(b[n - 1]));
        assert(decode_last_scalar(b) == codepoint_width_1(e[0]));
    } else if is_leading_byte_width_2(e[0]) {
        assert(k == 2);
        assert(is_continuation_byte(e[1]));
        assert(!is_continuation_byte(b[n - 2]));
        assert(decode_last_scalar(b) == codepoint_width_2(e[0], e[1]));
    } else if is_leading_byte_width_3(e[0]) {
        assert(k == 3);
        assert(is_continuation_byte(e[1]) && is_continuation_byte(e[2]));
        assert(!is_continuation_byte(b[n - 3]));
        assert(decode_last_scalar(b) == codepoint_width_3(e[0], e[1], e[2]));
    } else {
        assert(is_leading_byte_width_4(e[0]));
        assert(k == 4);
        assert(is_continuation_byte(e[1]) && is_continuation_byte(e[2]) && is_continuation_byte(
            e[3],
        ));
        assert(!is_continuation_byte(b[n - 4]));
        assert(decode_last_scalar(b) == codepoint_width_4(e[0], e[1], e[2], e[3]));
    }
}

/// Encode one character as its one to four UTF-8 bytes, verified against
/// `vstd`'s `encode_scalar`.
pub(crate) fn encode_char_bytes(ch: char) -> (out: Vec<u8>)
    ensures
        out@ == encode_scalar(ch as u32),
{
    proof {
        char_is_scalar(ch);
    }
    let v = ch as u32;
    let mut out: Vec<u8> = Vec::new();
    if v < 0x80 {
        assert(v & 0x7F < 0x100) by (bit_vector);
        out.push((v & 0x7F) as u8);
        assert(out@ =~= encode_scalar(v));
    } else if v < 0x800 {
        assert((v >> 6) & 0x1F < 0x100 && v & 0x3F < 0x100) by (bit_vector);
        out.push(0xC0 | ((v >> 6) & 0x1F) as u8);
        out.push(0x80 | (v & 0x3F) as u8);
        assert(out@ =~= encode_scalar(v));
    } else if v < 0x10000 {
        assert((v >> 12) & 0x0F < 0x100 && (v >> 6) & 0x3F < 0x100 && v & 0x3F < 0x100)
            by (bit_vector);
        out.push(0xE0 | ((v >> 12) & 0x0F) as u8);
        out.push(0x80 | ((v >> 6) & 0x3F) as u8);
        out.push(0x80 | (v & 0x3F) as u8);
        assert(out@ =~= encode_scalar(v));
    } else {
        assert((v >> 18) & 0x7 < 0x100 && (v >> 12) & 0x3F < 0x100 && (v >> 6) & 0x3F < 0x100 && v
            & 0x3F < 0x100) by (bit_vector);
        out.push(0xF0 | ((v >> 18) & 0x7) as u8);
        out.push(0x80 | ((v >> 12) & 0x3F) as u8);
        out.push(0x80 | ((v >> 6) & 0x3F) as u8);
        out.push(0x80 | (v & 0x3F) as u8);
        assert(out@ =~= encode_scalar(v));
    }
    out
}

/// Relies on `str::as_bytes` as `vstd` specifies it; exported as a wrapper
/// so that callers of this crate's functions need only plain `str` values.
pub(crate) fn str_bytes(s: &str) -> (b: &[u8])
    ensures
        b@ == encode_utf8(s@),
{
    s.as_bytes()
}

/// Relies on `str::from_utf8`: on bytes that are valid UTF-8 it returns the
/// text whose encoding is exactly those bytes.  It errs only on invalid
/// bytes, which the requirement leaves out.
#[verifier::external_body]
pub(crate) fn str_from_utf8(bytes: &[u8]) -> (s: &str)
    requires
        valid_utf8(bytes@),
    ensures
        encode_utf8(s@) == bytes@,
{
    core::str::from_utf8(bytes).unwrap()
}

/// Relies on `String::from_utf8`: on bytes that are valid UTF-8 it returns
/// the owned text whose encoding is exactly those bytes, reusing the
/// vector's allocation.  It errs only on invalid bytes, which the
/// requirement leaves out.
#[verifier::external_body]
pub(crate) fn string_from_utf8(bytes: Vec<u8>) -> (s: String)
    requires
        valid_utf8(bytes@),
    ensures
        encode_utf8(s@) == bytes@,
{
    String::from_utf8(bytes).unwrap()
}

/// Relies on `String::into_bytes`: the bytes of an owned text are the UTF-8
/// encoding of its characters, handed over without copying.
#[verifier::external_body]
pub(crate) fn string_into_bytes(s: String) -> (bytes: Vec<u8>)
    ensures
        bytes@ == encode_utf8(s@),
{
    s.into_bytes()
}

/// Relies on `char::from_u32`: a Unicode scalar value converts to the
/// character with exactly that value.  `from_u32` returns `None` only on
/// values that are not scalars, which the requirement leaves out.
#[verifier::external_body]
pub(crate) fn char_from_scalar(v: u32) -> (c: char)
    requires
        is_scalar(v),
    ensures
        c as u32 == v,
{
    char::from_u32(v).unwrap()
}

} // verus!
