//! The small-buffer-optimized text string.
//!
//! A `SmallString` owns a byte buffer that always holds valid UTF-8.  Its
//! mathematical view is the character sequence those bytes decode to; every
//! operation's contract is stated over that view, together with the
//! buffer's capacity and whether it has spilled to the heap.

use vstd::prelude::*;
use vstd::utf8::*;

use crate::buffer::{
    buf_as_slice, buf_capacity, buf_clear, buf_clone, buf_from_slice, buf_from_vec, buf_get,
    buf_into_vec, buf_len, buf_new, buf_push, buf_reserve, buf_reserve_exact, buf_shrink_to_fit,
    buf_spilled, buf_truncate, buf_with_capacity, buf_extend_from_slice, byte_contents,
    store_capacity, ByteBuf, INLINE_CAPACITY,
};
use vstd::std_specs::cmp::PartialEqSpec;
use crate::unicode::{
    char_from_scalar, encode_char_bytes, lemma_encode_scalar_len, lemma_encode_utf8_concat,
    lemma_encode_utf8_len, lemma_encode_utf8_snoc, lemma_last_scalar, str_bytes, str_from_utf8,
    string_from_utf8, string_into_bytes,
};

verus! {

/// A growable UTF-8 text buffer that stores short contents inline and
/// spills to the heap once they exceed `INLINE_CAPACITY` bytes.
pub struct SmallString {
    buffer: ByteBuf,
}

impl View for SmallString {
    type V = Seq<char>;

    /// The text held by the buffer: what its bytes decode to.
    closed spec fn view(&self) -> Seq<char> {
        decode_utf8(byte_contents(self.buffer))
    }
}

/// A well-formed text buffer holds bytes that encode its view exactly.
pub proof fn lemma_wf_encoding(s: SmallString)
    requires
        s.wf(),
    ensures
        s.spec_bytes() == encode_utf8(s@),
{
    decode_utf8_encode_utf8(s.spec_bytes());
}

impl SmallString {
    /// The bytes currently held.
    pub closed spec fn spec_bytes(self) -> Seq<u8> {
        byte_contents(self.buffer)
    }

    /// Well-formedness: the bytes are a valid UTF-8 encoding.  Every
    /// constructor establishes this and every operation preserves it.
    pub closed spec fn wf(self) -> bool {
        valid_utf8(self.spec_bytes())
    }

    /// The number of bytes the buffer can hold without reallocating.
    pub closed spec fn spec_capacity(self) -> nat {
        store_capacity(self.buffer)
    }

    /// Whether the bytes live in a heap allocation rather than inline.
    pub open spec fn spec_spilled(self) -> bool {
        self.spec_capacity() > INLINE_CAPACITY
    }

    /// Construct an empty string; no heap allocation is made.
    pub fn new() -> (s: SmallString)
        ensures
            s.wf(),
            s@ == Seq::<char>::empty(),
            s.spec_capacity() == INLINE_CAPACITY,
            !s.spec_spilled(),
    {
        SmallString { buffer: buf_new() }
    }

    /// Construct an empty string able to hold at least `n` bytes without
    /// reallocating; it allocates on the heap exactly when `n` exceeds the
    /// inline capacity.  A capacity beyond the underlying container's limit
    /// is a fatal error there and is excluded by the precondition.
    pub fn with_capacity(n: usize) -> (s: SmallString)
        requires
            n <= usize::MAX / 2,
        ensures
            s.wf(),
            s@ == Seq::<char>::empty(),
            s.spec_capacity() >= n,
            s.spec_spilled() == (n > INLINE_CAPACITY),
    {
        SmallString { buffer: buf_with_capacity(n) }
    }

    /// Construct from an owned text value, taking its bytes without
    /// copying them; the storage may stay heap-backed even for short text.
    pub fn from_string(string: String) -> (s: SmallString)
        ensures
            s.wf(),
            s@ == string@,
    {
        let bytes = string_into_bytes(string);
        proof {
            encode_utf8_valid_utf8(string@);
            encode_utf8_decode_utf8(string@);
        }
        SmallString { buffer: buf_from_vec(bytes) }
    }

    /// Construct from a borrowed text slice, copying its bytes; it spills
    /// to the heap exactly when the slice is longer than the inline
    /// capacity.
    pub fn from_str(text: &str) -> (s: SmallString)
        ensures
            s.wf(),
            s@ == text@,
            s.spec_spilled() == (encode_utf8(text@).len() > INLINE_CAPACITY),
    {
        let bytes = str_bytes(text);
        proof {
            encode_utf8_valid_utf8(text@);
            encode_utf8_decode_utf8(text@);
        }
        SmallString { buffer: buf_from_slice(bytes) }
    }

    /// The maximum number of bytes this string can hold inline.
    pub fn inline_size(&self) -> (n: usize)
        ensures
            n == INLINE_CAPACITY,
    {
        INLINE_CAPACITY
    }

    /// The length of this string in bytes (not characters).
    pub fn len(&self) -> (n: usize)
        requires
            self.wf(),
        ensures
            n == encode_utf8(self@).len(),
    {
        proof {
            lemma_wf_encoding(*self);
        }
        buf_len(&self.buffer)
    }

    /// Whether the string holds no text.
    pub fn is_empty(&self) -> (r: bool)
        requires
            self.wf(),
        ensures
            r == (self@.len() == 0),
    {
        proof {
            lemma_wf_encoding(*self);
            lemma_encode_utf8_len(self@);
        }
        buf_len(&self.buffer) == 0
    }

    /// The number of bytes this string can hold without reallocating; it is
    /// never below the inline capacity, nor below the content's length.
    pub fn capacity(&self) -> (n: usize)
        ensures
            n == self.spec_capacity(),
            n >= INLINE_CAPACITY,
            self.wf() ==> n >= encode_utf8(self@).len(),
    {
        let len = buf_len(&self.buffer);
        let n = buf_capacity(&self.buffer);
        proof {
            assert(len <= n);
            if self.wf() {
                lemma_wf_encoding(*self);
            }
        }
        n
    }

    /// Whether the text has spilled into a heap-allocated buffer.
    pub fn spilled(&self) -> (r: bool)
        ensures
            r == self.spec_spilled(),
    {
        buf_spilled(&self.buffer)
    }

    /// Append one character, encoded as one to four UTF-8 bytes in a
    /// single underlying append.
    pub fn push(&mut self, ch: char)
        requires
            old(self).wf(),
            4 * old(self)@.len() + 4 <= usize::MAX / 4,
        ensures
            final(self).wf(),
            final(self)@ == old(self)@.push(ch),
            encode_utf8(old(self)@).len() + 4 <= old(self).spec_capacity() ==> final(self).spec_capacity() == old(self).spec_capacity(),
            final(self).spec_capacity() >= old(self).spec_capacity(),
            encode_utf8(old(self)@).len() + encode_scalar(ch as u32).len() <= old(self).spec_capacity() ==> final(self).spec_capacity() == old(self).spec_capacity(),
            encode_utf8(old(self)@).len() + encode_scalar(ch as u32).len() > old(self).spec_capacity() ==> final(self).spec_spilled(),
    {
        proof {
            lemma_wf_encoding(*old(self));
            lemma_encode_utf8_len(old(self)@);
            char_is_scalar(ch);
            lemma_encode_scalar_len(ch as u32);
            lemma_encode_utf8_snoc(old(self)@, ch);
            encode_utf8_valid_utf8(old(self)@.push(ch));
            encode_utf8_decode_utf8(old(self)@.push(ch));
        }
        let v = ch as u32;
        if v < 0x80 {
            assert(v & 0x7F == v && v < 0x100) by (bit_vector)
                requires
                    v < 0x80,
            ;
            let b = (v & 0x7F) as u8;
            proof {
                assert(encode_scalar(v) == seq![leading_byte_width_1(v)]);
                assert(byte_contents(old(self).buffer).push(b) =~= byte_contents(
                    old(self).buffer,
                ) + encode_scalar(v));
            }
            buf_push(&mut self.buffer, b);
        } else {
            let eb = encode_char_bytes(ch);
            buf_extend_from_slice(&mut self.buffer, eb.as_slice());
        }
    }

    /// Append all characters of a text slice.
    pub fn push_str(&mut self, text: &str)
        requires
            old(self).wf(),
            4 * (old(self)@.len() + text@.len()) <= usize::MAX / 4,
        ensures
            final(self).wf(),
            final(self)@ == old(self)@ + text@,
            final(self).spec_capacity() >= old(self).spec_capacity(),
            encode_utf8(old(self)@).len() + encode_utf8(text@).len() <= old(self).spec_capacity() ==> final(self).spec_capacity() == old(self).spec_capacity(),
            encode_utf8(old(self)@).len() + encode_utf8(text@).len() > old(self).spec_capacity()
                ==> final(self).spec_spilled(),
    {
        proof {
            lemma_wf_encoding(*old(self));
            lemma_encode_utf8_len(old(self)@);
            lemma_encode_utf8_len(text@);
            lemma_encode_utf8_concat(old(self)@, text@);
            encode_utf8_valid_utf8(old(self)@ + text@);
            encode_utf8_decode_utf8(old(self)@ + text@);
        }
        let bytes = str_bytes(text);
        buf_extend_from_slice(&mut self.buffer, bytes);
    }

    /// Remove and return the last character, or `None` when the string is
    /// empty.  The last character's byte width is recognized by decoding
    /// backwards from the end, and exactly that many bytes are removed.
    pub fn pop(&mut self) -> (r: Option<char>)
        requires
            old(self).wf(),
        ensures
            final(self).wf(),
            old(self)@.len() == 0 ==> r is None && *final(self) == *old(self),
            old(self)@.len() > 0 ==> r == Some(old(self)@.last()) && final(self)@ == old(self)@.drop_last(),
            final(self).spec_capacity() == old(self).spec_capacity(),
    {
        proof {
            lemma_wf_encoding(*old(self));
            lemma_encode_utf8_len(old(self)@);
        }
        let n = buf_len(&self.buffer);
        if n == 0 {
            return None;
        }
        let ghost t = old(self)@;
        let ghost b = encode_utf8(t);
        proof {
            lemma_last_scalar(t);
            char_is_scalar(t.last());
        }
        let b1 = buf_get(&self.buffer, n - 1);
        let width: usize;
        let code: u32;
        if b1 < 0x80 || b1 > 0xBF {
            width = 1;
            code = (b1 & 0x7F) as u32;
            proof {
                assert(code == codepoint_width_1(b1));
            }
        } else {
            let b2 = buf_get(&self.buffer, n - 2);
            if b2 < 0x80 || b2 > 0xBF {
                width = 2;
                code = (((b2 & 0x1F) as u32) << 6) | ((b1 & 0x3F) as u32);
                proof {
                    assert(code == codepoint_width_2(b2, b1));
                }
            } else {
                let b3 = buf_get(&self.buffer, n - 3);
                if b3 < 0x80 || b3 > 0xBF {
                    width = 3;
                    code = (((b3 & 0x0F) as u32) << 12) | (((b2 & 0x3F) as u32) << 6) | ((b1
                        & 0x3F) as u32);
                    proof {
                        assert(code == codepoint_width_3(b3, b2, b1));
                    }
                } else {
                    let b4 = buf_get(&self.buffer, n - 4);
                    width = 4;
                    code = (((b4 & 0x07) as u32) << 18) | (((b3 & 0x3F) as u32) << 12) | (((b2
                        & 0x3F) as u32) << 6) | ((b1 & 0x3F) as u32);
                    proof {
                        assert(code == codepoint_width_4(b4, b3, b2, b1));
                    }
                }
            }
        }
        proof {
            assert(width == length_of_last_scalar(b));
            assert(code == decode_last_scalar(b));
            assert(code == t.last() as u32);
        }
        let ch = char_from_scalar(code);
        proof {
            char_u32_cast(t.last(), code);
            assert(ch == t.last());
        }
        buf_truncate(&mut self.buffer, n - width);
        proof {
            assert(byte_contents(self.buffer) == encode_utf8(t.drop_last()));
            encode_utf8_valid_utf8(t.drop_last());
            encode_utf8_decode_utf8(t.drop_last());
        }
        Some(ch)
    }

    /// Whether `index` is the start of a character's encoding or the end
    /// of the text, so that the text may be cut there.
    pub fn is_char_boundary(&self, index: usize) -> (r: bool)
        requires
            self.wf(),
        ensures
            r == vstd::utf8::is_char_boundary(encode_utf8(self@), index as int),
    {
        proof {
            lemma_wf_encoding(*self);
        }
        let n = buf_len(&self.buffer);
        if index > n {
            proof {
                assert(!vstd::utf8::is_char_boundary(self.spec_bytes(), index as int));
            }
            false
        } else if index == n {
            proof {
                is_char_boundary_start_end_of_seq(self.spec_bytes());
            }
            true
        } else {
            let b = buf_get(&self.buffer, index);
            proof {
                is_char_boundary_iff_not_is_continuation_byte(self.spec_bytes(), index as int);
            }
            b < 0x80 || b > 0xBF
        }
    }

    /// Shorten the text to `new_len` bytes; without effect when `new_len`
    /// is not below the current length.  Cutting inside a character's
    /// encoding is a contract violation and is excluded by the
    /// precondition.
    pub fn truncate(&mut self, new_len: usize)
        requires
            old(self).wf(),
            (new_len as int) >= encode_utf8(old(self)@).len() || vstd::utf8::is_char_boundary(
                encode_utf8(old(self)@),
                new_len as int,
            ),
        ensures
            final(self).wf(),
            final(self).spec_capacity() == old(self).spec_capacity(),
            (new_len as int) >= encode_utf8(old(self)@).len() ==> *final(self) == *old(self),
            (new_len as int) < encode_utf8(old(self)@).len() ==> final(self)@ == decode_utf8(
                encode_utf8(old(self)@).take(new_len as int),
            ),
            final(self)@ == old(self)@.take(final(self)@.len() as int),
    {
        proof {
            lemma_wf_encoding(*old(self));
        }
        let n = buf_len(&self.buffer);
        if new_len < n {
            let ghost b = encode_utf8(old(self)@);
            proof {
                valid_utf8_split(b, new_len as int);
                decode_utf8_split(b, new_len as int);
                assert(b.subrange(0, new_len as int) =~= b.take(new_len as int));
            }
            buf_truncate(&mut self.buffer, new_len);
            proof {
                assert(old(self)@.take(final(self)@.len() as int) =~= final(self)@);
            }
        } else {
            proof {
                assert(old(self)@.take(old(self)@.len() as int) =~= old(self)@);
            }
        }
    }

    /// Remove all text; the storage mode and the capacity are kept.
    pub fn clear(&mut self)
        requires
            old(self).wf(),
        ensures
            final(self).wf(),
            final(self)@ == Seq::<char>::empty(),
            final(self).spec_capacity() == old(self).spec_capacity(),
            final(self).spec_spilled() == old(self).spec_spilled(),
    {
        buf_clear(&mut self.buffer);
    }

    /// Reserve room for at least `additional` more bytes; more may be
    /// reserved to amortize, and nothing changes when enough room remains.
    /// A request that would push the rounded-up target capacity beyond the
    /// underlying container's limit is a fatal error there, and is excluded
    /// by the precondition; the capacity does not saturate.
    pub fn reserve(&mut self, additional: usize)
        requires
            old(self).wf(),
            4 * old(self)@.len() + additional <= usize::MAX / 4,
        ensures
            final(self).wf(),
            final(self)@ == old(self)@,
            final(self).spec_capacity() >= encode_utf8(old(self)@).len() + additional,
            final(self).spec_capacity() >= old(self).spec_capacity(),
            encode_utf8(old(self)@).len() + additional <= old(self).spec_capacity() ==> final(self).spec_capacity() == old(self).spec_capacity(),
    {
        proof {
            lemma_wf_encoding(*old(self));
            lemma_encode_utf8_len(old(self)@);
        }
        buf_reserve(&mut self.buffer, additional);
    }

    /// Reserve room for exactly `additional` more bytes; nothing changes
    /// when enough room remains.  A capacity computation that would
    /// overflow is a fatal error and is excluded by the precondition.
    pub fn reserve_exact(&mut self, additional: usize)
        requires
            old(self).wf(),
            4 * old(self)@.len() + additional <= usize::MAX / 2,
        ensures
            final(self).wf(),
            final(self)@ == old(self)@,
            final(self).spec_capacity() >= encode_utf8(old(self)@).len() + additional,
            final(self).spec_capacity() >= old(self).spec_capacity(),
            encode_utf8(old(self)@).len() + additional <= old(self).spec_capacity() ==> final(self).spec_capacity() == old(self).spec_capacity(),
    {
        proof {
            lemma_wf_encoding(*old(self));
            lemma_encode_utf8_len(old(self)@);
        }
        buf_reserve_exact(&mut self.buffer, additional);
    }

    /// Release unused capacity; when the text fits within the inline
    /// capacity the bytes move back inline and the heap allocation is
    /// released.
    pub fn shrink_to_fit(&mut self)
        requires
            old(self).wf(),
        ensures
            final(self).wf(),
            final(self)@ == old(self)@,
            encode_utf8(old(self)@).len() <= INLINE_CAPACITY ==> final(self).spec_capacity()
                == INLINE_CAPACITY,
            encode_utf8(old(self)@).len() > INLINE_CAPACITY ==> final(self).spec_capacity()
                == encode_utf8(old(self)@).len(),
            final(self).spec_spilled() == (encode_utf8(old(self)@).len() > INLINE_CAPACITY),
    {
        proof {
            lemma_wf_encoding(*old(self));
        }
        buf_shrink_to_fit(&mut self.buffer);
    }

    /// Borrow the whole text as a string slice.
    pub fn as_str(&self) -> (s: &str)
        requires
            self.wf(),
        ensures
            s@ == self@,
    {
        proof {
            lemma_wf_encoding(*self);
        }
        let bytes = buf_as_slice(&self.buffer);
        let s = str_from_utf8(bytes);
        proof {
            encode_utf8_decode_utf8(s@);
        }
        s
    }

    /// Compare the bytes of two buffers for equality.
    fn bytes_eq(&self, other: &SmallString) -> (r: bool)
        ensures
            r == (self.spec_bytes() == other.spec_bytes()),
    {
        let n1 = buf_len(&self.buffer);
        let n2 = buf_len(&other.buffer);
        if n1 != n2 {
            return false;
        }
        let mut i: usize = 0;
        while i < n1
            invariant
                i <= n1,
                n1 == self.spec_bytes().len(),
                n1 == other.spec_bytes().len(),
                forall|j: int| 0 <= j < i ==> self.spec_bytes()[j] == other.spec_bytes()[j],
            decreases n1 - i,
        {
            let x = buf_get(&self.buffer, i);
            let y = buf_get(&other.buffer, i);
            if x != y {
                return false;
            }
            i += 1;
        }
        proof {
            assert(self.spec_bytes() =~= other.spec_bytes());
        }
        true
    }

    /// Compare the bytes of two buffers lexicographically.
    fn bytes_cmp(&self, other: &SmallString) -> (r: core::cmp::Ordering)
        ensures
            r == lex_cmp_bytes(self.spec_bytes(), other.spec_bytes()),
    {
        let ghost a = self.spec_bytes();
        let ghost b = other.spec_bytes();
        let n1 = buf_len(&self.buffer);
        let n2 = buf_len(&other.buffer);
        let n = if n1 < n2 {
            n1
        } else {
            n2
        };
        let mut i: usize = 0;
        proof {
            assert(a.skip(0) =~= a);
            assert(b.skip(0) =~= b);
        }
        while i < n
            invariant
                i <= n,
                n == if n1 < n2 { n1 } else { n2 },
                n1 == a.len(),
                n2 == b.len(),
                a == self.spec_bytes(),
                b == other.spec_bytes(),
                lex_cmp_bytes(a, b) == lex_cmp_bytes(a.skip(i as int), b.skip(i as int)),
            decreases n - i,
        {
            let x = buf_get(&self.buffer, i);
            let y = buf_get(&other.buffer, i);
            proof {
                assert(a.skip(i as int)[0] == a[i as int]);
                assert(b.skip(i as int)[0] == b[i as int]);
            }
            if x < y {
                return core::cmp::Ordering::Less;
            }
            if x > y {
                return core::cmp::Ordering::Greater;
            }
            proof {
                assert(a.skip(i as int).drop_first() =~= a.skip(i + 1));
                assert(b.skip(i as int).drop_first() =~= b.skip(i + 1));
            }
            i += 1;
        }
        if n1 < n2 {
            proof {
                assert(a.skip(n as int).len() == 0);
                assert(b.skip(n as int).len() > 0);
            }
            core::cmp::Ordering::Less
        } else if n1 > n2 {
            proof {
                assert(b.skip(n as int).len() == 0);
                assert(a.skip(n as int).len() > 0);
            }
            core::cmp::Ordering::Greater
        } else {
            proof {
                assert(a.skip(n as int).len() == 0);
                assert(b.skip(n as int).len() == 0);
            }
            core::cmp::Ordering::Equal
        }
    }

    /// Append every character of the sequence, reserving its length (a
    /// lower bound on the bytes needed) first.
    pub fn extend_chars(&mut self, chars: &Vec<char>)
        requires
            old(self).wf(),
            4 * (old(self)@.len() + chars@.len()) + 4 <= usize::MAX / 4,
        ensures
            final(self).wf(),
            final(self)@ == old(self)@ + chars@,
            final(self).spec_capacity() >= encode_utf8(old(self)@).len() + chars@.len(),
            final(self).spec_capacity() >= old(self).spec_capacity(),
    {
        let k = chars.len();
        self.reserve(k);
        let mut i: usize = 0;
        proof {
            assert(old(self)@ + chars@.take(0) =~= old(self)@);
        }
        while i < k
            invariant
                i <= k,
                k == chars@.len(),
                self.wf(),
                self@ == old(self)@ + chars@.take(i as int),
                self.spec_capacity() >= encode_utf8(old(self)@).len() + chars@.len(),
                self.spec_capacity() >= old(self).spec_capacity(),
                4 * (old(self)@.len() + chars@.len()) + 4 <= usize::MAX / 4,
            decreases k - i,
        {
            let c = chars[i];
            self.push(c);
            proof {
                assert(old(self)@ + chars@.take(i + 1) =~= (old(self)@ + chars@.take(
                    i as int,
                )).push(chars@[i as int]));
            }
            i += 1;
        }
        proof {
            assert(chars@.take(k as int) =~= chars@);
        }
    }

    /// Append every text slice of the sequence in order.
    pub fn extend_strs(&mut self, parts: &Vec<&str>)
        requires
            old(self).wf(),
            4 * (old(self)@.len() + concat_texts(parts.deep_view()).len()) <= usize::MAX / 4,
        ensures
            final(self).wf(),
            final(self)@ == old(self)@ + concat_texts(parts.deep_view()),
            final(self).spec_capacity() >= old(self).spec_capacity(),
    {
        let ghost all = parts.deep_view();
        let k = parts.len();
        let mut i: usize = 0;
        proof {
            assert(old(self)@ + concat_texts(all.take(0)) =~= old(self)@);
        }
        while i < k
            invariant
                i <= k,
                k == all.len(),
                all == parts.deep_view(),
                parts@.len() == all.len(),
                forall|j: int| 0 <= j < k ==> all[j] == parts@[j]@,
                self.wf(),
                self@ == old(self)@ + concat_texts(all.take(i as int)),
                self.spec_capacity() >= old(self).spec_capacity(),
                4 * (old(self)@.len() + concat_texts(all).len()) <= usize::MAX / 4,
            decreases k - i,
        {
            proof {
                lemma_concat_texts_split(all, i as int);
                lemma_concat_texts_head(all, i as int);
                let pre = old(self)@ + concat_texts(all.take(i as int));
                assert(old(self)@ + concat_texts(all) =~= (pre + all[i as int]) + concat_texts(
                    all.skip(i + 1),
                ));
            }
            let part = parts[i];
            self.push_str(part);
            proof {
                lemma_concat_texts_take_snoc(all, i as int);
                assert(old(self)@ + concat_texts(all.take(i + 1)) =~= (old(self)@ + concat_texts(
                    all.take(i as int),
                )) + all[i as int]);
            }
            i += 1;
        }
        proof {
            assert(all.take(k as int) =~= all);
        }
    }

    /// Build a string from a sequence of characters.
    pub fn from_chars(chars: &Vec<char>) -> (s: SmallString)
        requires
            4 * chars@.len() + 4 <= usize::MAX / 4,
        ensures
            s.wf(),
            s@ == chars@,
    {
        let mut s = SmallString::new();
        proof {
            assert(Seq::<char>::empty() + chars@ =~= chars@);
        }
        s.extend_chars(chars);
        s
    }

    /// Build a string from a sequence of text slices.
    pub fn from_strs(parts: &Vec<&str>) -> (s: SmallString)
        requires
            4 * concat_texts(parts.deep_view()).len() <= usize::MAX / 4,
        ensures
            s.wf(),
            s@ == concat_texts(parts.deep_view()),
    {
        let mut s = SmallString::new();
        proof {
            assert(Seq::<char>::empty() + concat_texts(parts.deep_view()) =~= concat_texts(
                parts.deep_view(),
            ));
        }
        s.extend_strs(parts);
        s
    }

    /// Convert into an owned text value, handing the bytes over without
    /// copying or re-validating them.
    pub fn into_string(self) -> (out: String)
        requires
            self.wf(),
        ensures
            out@ == self@,
    {
        proof {
            lemma_wf_encoding(self);
        }
        let bytes = buf_into_vec(self.buffer);
        let out = string_from_utf8(bytes);
        proof {
            encode_utf8_decode_utf8(out@);
        }
        out
    }
}

/// Lexicographic order on byte sequences; for valid UTF-8 it coincides with
/// lexicographic order on the decoded codepoints.
pub open spec fn lex_cmp_bytes(a: Seq<u8>, b: Seq<u8>) -> core::cmp::Ordering
    decreases a.len() + b.len(),
{
    if a.len() == 0 && b.len() == 0 {
        core::cmp::Ordering::Equal
    } else if a.len() == 0 {
        core::cmp::Ordering::Less
    } else if b.len() == 0 {
        core::cmp::Ordering::Greater
    } else if a[0] < b[0] {
        core::cmp::Ordering::Less
    } else if a[0] > b[0] {
        core::cmp::Ordering::Greater
    } else {
        lex_cmp_bytes(a.drop_first(), b.drop_first())
    }
}

/// The concatenation of a sequence of texts, in order.
pub open spec fn concat_texts(parts: Seq<Seq<char>>) -> Seq<char>
    decreases parts.len(),
{
    if parts.len() == 0 {
        Seq::<char>::empty()
    } else {
        parts[0] + concat_texts(parts.drop_first())
    }
}

/// Concatenating a sequence of texts concatenates a prefix and the rest.
pub proof fn lemma_concat_texts_split(parts: Seq<Seq<char>>, i: int)
    requires
        0 <= i <= parts.len(),
    ensures
        concat_texts(parts) == concat_texts(parts.take(i)) + concat_texts(parts.skip(i)),
    decreases i,
{
    if i == 0 {
        assert(parts.take(0) =~= Seq::<Seq<char>>::empty());
        assert(parts.skip(0) =~= parts);
        assert(concat_texts(parts.take(0)) + concat_texts(parts.skip(0)) =~= concat_texts(parts));
    } else {
        lemma_concat_texts_split(parts.drop_first(), i - 1);
        assert(parts.take(i)[0] == parts[0]);
        assert(parts.take(i).drop_first() =~= parts.drop_first().take(i - 1));
        assert(parts.skip(i) =~= parts.drop_first().skip(i - 1));
        assert(concat_texts(parts.take(i)) + concat_texts(parts.skip(i)) =~= concat_texts(parts));
    }
}

/// One more part extends the concatenation by exactly that part.
pub proof fn lemma_concat_texts_take_snoc(parts: Seq<Seq<char>>, i: int)
    requires
        0 <= i < parts.len(),
    ensures
        concat_texts(parts.take(i + 1)) == concat_texts(parts.take(i)) + parts[i],
{
    lemma_concat_texts_split(parts.take(i + 1), i);
    assert(parts.take(i + 1).take(i) =~= parts.take(i));
    assert(parts.take(i + 1).skip(i) =~= seq![parts[i]]);
    let single = seq![parts[i]];
    assert(single[0] == parts[i]);
    assert(single.drop_first() =~= Seq::<Seq<char>>::empty());
    assert(concat_texts(single) == parts[i] + concat_texts(single.drop_first()));
    assert(parts[i] + concat_texts(single.drop_first()) =~= parts[i]);
}

/// The concatenation of the parts from `i` on starts with part `i`.
pub proof fn lemma_concat_texts_head(parts: Seq<Seq<char>>, i: int)
    requires
        0 <= i < parts.len(),
    ensures
        concat_texts(parts.skip(i)) == parts[i] + concat_texts(parts.skip(i + 1)),
{
    assert(parts.skip(i)[0] == parts[i]);
    assert(parts.skip(i).drop_first() =~= parts.skip(i + 1));
}

impl Clone for SmallString {
    /// The clone holds the same bytes, hence the same text; its storage is
    /// its own.
    fn clone(&self) -> (r: Self)
        ensures
            r@ == self@,
            r.spec_bytes() == self.spec_bytes(),
            r.wf() == self.wf(),
    {
        SmallString { buffer: buf_clone(&self.buffer) }
    }
}

impl Default for SmallString {
    /// An empty string with inline storage.
    fn default() -> (s: Self)
        ensures
            s.wf(),
            s@ == Seq::<char>::empty(),
            s.spec_capacity() == INLINE_CAPACITY,
            !s.spec_spilled(),
    {
        SmallString::new()
    }
}

impl PartialEq for SmallString {
    /// Equality compares the held bytes; for well-formed buffers that is
    /// equality of the decoded text, whatever the storage modes.
    fn eq(&self, other: &Self) -> (r: bool)
        ensures
            r == (self.spec_bytes() == other.spec_bytes()),
    {
        self.bytes_eq(other)
    }
}

impl vstd::std_specs::cmp::PartialEqSpecImpl for SmallString {
    open spec fn obeys_eq_spec() -> bool {
        true
    }

    open spec fn eq_spec(&self, other: &Self) -> bool {
        self.spec_bytes() == other.spec_bytes()
    }
}

impl Eq for SmallString {

}

impl PartialOrd for SmallString {
    /// Ordering compares the held bytes lexicographically; for valid UTF-8
    /// that coincides with lexicographic codepoint order.
    fn partial_cmp(&self, other: &Self) -> (r: Option<core::cmp::Ordering>)
        ensures
            r == Some(lex_cmp_bytes(self.spec_bytes(), other.spec_bytes())),
    {
        Some(self.bytes_cmp(other))
    }
}

impl vstd::std_specs::cmp::PartialOrdSpecImpl for SmallString {
    open spec fn obeys_partial_cmp_spec() -> bool {
        true
    }

    open spec fn partial_cmp_spec(&self, other: &Self) -> Option<core::cmp::Ordering> {
        Some(lex_cmp_bytes(self.spec_bytes(), other.spec_bytes()))
    }
}

/// Round trip: a buffer built from a borrowed text holds that text as its
/// view, and conversion to an owned value returns the view; the
/// composition gives back the original text.
pub proof fn lemma_round_trip(text: Seq<char>, s: SmallString, out: Seq<char>)
    requires
        s@ == text,
        out == s@,
    ensures
        out == text,
{
}

/// Pushing a character and then popping removes exactly that character:
/// the popped character is the one pushed, and the text and its byte
/// length return to what they were.
pub proof fn lemma_push_pop(text: Seq<char>, c: char)
    ensures
        text.push(c).last() == c,
        text.push(c).drop_last() == text,
        encode_utf8(text.push(c).drop_last()).len() == encode_utf8(text).len(),
{
    assert(text.push(c).drop_last() =~= text);
}

/// Well-formed buffers are equal exactly when their decoded text is equal,
/// whatever their storage modes: the encoding is injective, and equality
/// compares the encoded bytes.
pub proof fn lemma_eq_iff_equal_text(a: SmallString, b: SmallString)
    requires
        a.wf(),
        b.wf(),
    ensures
        a.eq_spec(&b) <==> a@ == b@,
{
    lemma_wf_encoding(a);
    lemma_wf_encoding(b);
}

} // verus!
