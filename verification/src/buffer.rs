//! Trusted boundary around the byte small-buffer container.
//!
//! The text type stores its bytes in a `smallvec::SmallVec` with a fixed
//! inline capacity.  Verus cannot look inside that type, so this module
//! holds it opaquely, names its contents and its capacity, and wraps each
//! method the text logic calls in a function whose contract states what
//! the container's source shows.

use vstd::prelude::*;

use smallvec::SmallVec;

verus! {

/// Number of bytes the buffer can hold without a heap allocation.
pub const INLINE_CAPACITY: usize = 8;

/// The byte small-buffer container.  Verus refuses a declaration of
/// `SmallVec` itself (its type parameter is bound by `smallvec`'s `Array`
/// trait), so the container is held opaquely in a private field.
#[verifier::external_body]
pub struct ByteBuf {
    inner: SmallVec<[u8; INLINE_CAPACITY]>,
}

/// The byte sequence currently held by the buffer.
pub uninterp spec fn byte_contents(v: ByteBuf) -> Seq<u8>;

/// The number of bytes the buffer can hold without reallocating, as its
/// `capacity` method reports it.  It is at least `INLINE_CAPACITY`, and the
/// buffer is heap-backed exactly when it exceeds `INLINE_CAPACITY`.
pub uninterp spec fn store_capacity(v: ByteBuf) -> nat;

/// Relies on `SmallVec::new`: an empty inline buffer, whose `capacity`
/// reports the inline capacity.
#[verifier::external_body]
pub(crate) fn buf_new() -> (v: ByteBuf)
    ensures
        byte_contents(v) == Seq::<u8>::empty(),
        store_capacity(v) == INLINE_CAPACITY,
{
    ByteBuf { inner: SmallVec::new() }
}

/// Relies on `SmallVec::with_capacity` (`new` followed by `reserve_exact`):
/// an empty buffer; it allocates on the heap, with capacity exactly `n`,
/// only when `n` exceeds the inline capacity.  A capacity whose byte layout
/// exceeds `isize::MAX` makes `reserve_exact` panic before allocating, so
/// the requirement leaves such `n` out.
#[verifier::external_body]
pub(crate) fn buf_with_capacity(n: usize) -> (v: ByteBuf)
    requires
        n <= usize::MAX / 2,
    ensures
        byte_contents(v) == Seq::<u8>::empty(),
        n <= INLINE_CAPACITY ==> store_capacity(v) == INLINE_CAPACITY,
        n > INLINE_CAPACITY ==> store_capacity(v) == n,
{
    ByteBuf { inner: SmallVec::with_capacity(n) }
}

/// Relies on `SmallVec::from_vec`: the buffer takes the vector's elements
/// without copying them when the vector's allocation is larger than the
/// inline capacity, so a short text may stay heap-backed; nothing is stated
/// about the storage mode.
#[verifier::external_body]
pub(crate) fn buf_from_vec(bytes: Vec<u8>) -> (v: ByteBuf)
    ensures
        byte_contents(v) == bytes@,
        store_capacity(v) >= byte_contents(v).len(),
        store_capacity(v) >= INLINE_CAPACITY,
{
    ByteBuf { inner: SmallVec::from_vec(bytes) }
}

/// Relies on `SmallVec::from_slice`: the bytes are copied; the buffer stays
/// inline unless the slice is longer than the inline capacity.
#[verifier::external_body]
pub(crate) fn buf_from_slice(bytes: &[u8]) -> (v: ByteBuf)
    ensures
        byte_contents(v) == bytes@,
        bytes@.len() <= INLINE_CAPACITY ==> store_capacity(v) == INLINE_CAPACITY,
        bytes@.len() > INLINE_CAPACITY ==> store_capacity(v) >= bytes@.len(),
{
    ByteBuf { inner: SmallVec::from_slice(bytes) }
}

/// Relies on `SmallVec::len`.
#[verifier::external_body]
pub(crate) fn buf_len(v: &ByteBuf) -> (n: usize)
    ensures
        n == byte_contents(*v).len(),
        n <= store_capacity(*v),
{
    v.inner.len()
}

/// Relies on `SmallVec::capacity`.
#[verifier::external_body]
pub(crate) fn buf_capacity(v: &ByteBuf) -> (n: usize)
    ensures
        n == store_capacity(*v),
        n >= INLINE_CAPACITY,
{
    v.inner.capacity()
}

/// Relies on `SmallVec::spilled`: the buffer is heap-backed exactly when its
/// capacity exceeds the inline capacity.
#[verifier::external_body]
pub(crate) fn buf_spilled(v: &ByteBuf) -> (r: bool)
    ensures
        r == (store_capacity(*v) > INLINE_CAPACITY),
{
    v.inner.spilled()
}

/// Relies on slice indexing through `SmallVec::as_slice`.
#[verifier::external_body]
pub(crate) fn buf_get(v: &ByteBuf, i: usize) -> (b: u8)
    requires
        i < byte_contents(*v).len(),
    ensures
        b == byte_contents(*v)[i as int],
{
    v.inner.as_slice()[i]
}

/// Relies on `SmallVec::as_slice`.
#[verifier::external_body]
pub(crate) fn buf_as_slice(v: &ByteBuf) -> (s: &[u8])
    ensures
        s@ == byte_contents(*v),
{
    v.inner.as_slice()
}

/// Relies on `SmallVec::push`: appends one byte; when the buffer is full it
/// grows past the inline capacity and becomes heap-backed, and otherwise the
/// capacity is unchanged.  When it must grow, `push` rounds the target
/// capacity up to the next power of two and panics when that rounding
/// overflows or the rounded capacity's byte layout exceeds `isize::MAX`;
/// the requirement keeps the rounded target at or under that limit.
#[verifier::external_body]
pub(crate) fn buf_push(v: &mut ByteBuf, b: u8)
    requires
        byte_contents(*old(v)).len() + 1 <= usize::MAX / 4,
    ensures
        byte_contents(*final(v)) == byte_contents(*old(v)).push(b),
        byte_contents(*old(v)).len() < store_capacity(*old(v)) ==> store_capacity(*final(v))
            == store_capacity(*old(v)),
        byte_contents(*old(v)).len() >= store_capacity(*old(v)) ==> store_capacity(*final(v))
            > INLINE_CAPACITY && store_capacity(*final(v)) > byte_contents(*old(v)).len(),
{
    v.inner.push(b)
}

/// Relies on `SmallVec::extend_from_slice`: appends the bytes; when they do
/// not fit it grows past the inline capacity and becomes heap-backed, and
/// otherwise the capacity is unchanged.  When it must grow, the reserve it
/// makes rounds the target capacity up to the next power of two and panics
/// when that rounding overflows or the rounded capacity's byte layout
/// exceeds `isize::MAX`; the requirement keeps the rounded target at or
/// under that limit.
#[verifier::external_body]
pub(crate) fn buf_extend_from_slice(v: &mut ByteBuf, bytes: &[u8])
    requires
        byte_contents(*old(v)).len() + bytes@.len() <= usize::MAX / 4,
    ensures
        byte_contents(*final(v)) == byte_contents(*old(v)) + bytes@,
        byte_contents(*old(v)).len() + bytes@.len() <= store_capacity(*old(v)) ==> store_capacity(
            *final(v),
        ) == store_capacity(*old(v)),
        byte_contents(*old(v)).len() + bytes@.len() > store_capacity(*old(v)) ==> store_capacity(
            *final(v),
        ) > INLINE_CAPACITY && store_capacity(*final(v)) >= byte_contents(*old(v)).len()
            + bytes@.len(),
{
    v.inner.extend_from_slice(bytes)
}

/// Relies on `SmallVec::truncate`: keeps the first `n` bytes, does nothing
/// when `n` is not below the length, and never reallocates.
#[verifier::external_body]
pub(crate) fn buf_truncate(v: &mut ByteBuf, n: usize)
    ensures
        n <= byte_contents(*old(v)).len() ==> byte_contents(*final(v)) == byte_contents(
            *old(v),
        ).take(n as int),
        n > byte_contents(*old(v)).len() ==> byte_contents(*final(v)) == byte_contents(*old(v)),
        store_capacity(*final(v)) == store_capacity(*old(v)),
{
    v.inner.truncate(n)
}

/// Relies on `SmallVec::clear` (`truncate` to zero): empties the buffer and
/// keeps its storage mode and capacity.
#[verifier::external_body]
pub(crate) fn buf_clear(v: &mut ByteBuf)
    ensures
        byte_contents(*final(v)) == Seq::<u8>::empty(),
        store_capacity(*final(v)) == store_capacity(*old(v)),
{
    v.inner.clear()
}

/// Relies on `SmallVec::reserve`: afterwards at least `additional` more
/// bytes fit; it may reserve more to amortize, does nothing when enough
/// capacity remains, and keeps the bytes.  When it must grow, `reserve`
/// rounds the target capacity up to the next power of two and panics when
/// that rounding overflows or when the byte layout of the rounded capacity
/// exceeds `isize::MAX`; the requirement keeps the rounded target at or
/// under that limit.
#[verifier::external_body]
pub(crate) fn buf_reserve(v: &mut ByteBuf, additional: usize)
    requires
        byte_contents(*old(v)).len() + additional <= usize::MAX / 4,
    ensures
        byte_contents(*final(v)) == byte_contents(*old(v)),
        store_capacity(*final(v)) >= byte_contents(*old(v)).len() + additional,
        store_capacity(*final(v)) >= store_capacity(*old(v)),
        byte_contents(*old(v)).len() + additional <= store_capacity(*old(v)) ==> store_capacity(
            *final(v),
        ) == store_capacity(*old(v)),
{
    v.inner.reserve(additional)
}

/// Relies on `SmallVec::reserve_exact`: afterwards at least `additional`
/// more bytes fit, it does nothing when enough capacity remains, and it
/// keeps the bytes.  `reserve_exact` panics when `length + additional`
/// overflows `usize` or when the byte layout of the target capacity
/// exceeds `isize::MAX`, so the requirement leaves those inputs out.
#[verifier::external_body]
pub(crate) fn buf_reserve_exact(v: &mut ByteBuf, additional: usize)
    requires
        byte_contents(*old(v)).len() + additional <= usize::MAX / 2,
    ensures
        byte_contents(*final(v)) == byte_contents(*old(v)),
        store_capacity(*final(v)) >= byte_contents(*old(v)).len() + additional,
        store_capacity(*final(v)) >= store_capacity(*old(v)),
        byte_contents(*old(v)).len() + additional <= store_capacity(*old(v)) ==> store_capacity(
            *final(v),
        ) == store_capacity(*old(v)),
{
    v.inner.reserve_exact(additional)
}

/// Relies on `SmallVec::shrink_to_fit`: keeps the bytes and shrinks the
/// capacity to their length, moving them back inline (so that the buffer is
/// no longer heap-backed) when they fit within the inline capacity.
#[verifier::external_body]
pub(crate) fn buf_shrink_to_fit(v: &mut ByteBuf)
    ensures
        byte_contents(*final(v)) == byte_contents(*old(v)),
        byte_contents(*old(v)).len() <= INLINE_CAPACITY ==> store_capacity(*final(v))
            == INLINE_CAPACITY,
        byte_contents(*old(v)).len() > INLINE_CAPACITY ==> store_capacity(*final(v))
            == byte_contents(*old(v)).len(),
{
    v.inner.shrink_to_fit()
}

/// Relies on `SmallVec::clone` (a copy of the bytes into a fresh buffer,
/// through `SmallVec::from` on the byte slice): the clone holds the same
/// bytes; its storage is its own.
#[verifier::external_body]
pub(crate) fn buf_clone(v: &ByteBuf) -> (r: ByteBuf)
    ensures
        byte_contents(r) == byte_contents(*v),
{
    ByteBuf { inner: v.inner.clone() }
}

/// Relies on `SmallVec::into_vec`: hands the bytes out as a vector, reusing
/// the heap allocation when there is one.
#[verifier::external_body]
pub(crate) fn buf_into_vec(v: ByteBuf) -> (r: Vec<u8>)
    ensures
        r@ == byte_contents(v),
{
    v.inner.into_vec()
}

} // verus!
