//! The byte buffer of the `bytes` crate, as the codec reads and fills it.
//!
//! A `BytesMut` is opaque to the verifier: what it holds is named by
//! [`bytes_contents`], and each method the codec calls has a wrapper whose
//! contract says what the method does to those contents.
use vstd::prelude::*;

use bytes::BytesMut;

verus! {

#[verifier::external_type_specification]
#[verifier::external_body]
pub struct ExBytesMut(bytes::BytesMut);

/// The bytes a buffer holds, from its read position to its end.
pub uninterp spec fn bytes_contents(b: BytesMut) -> Seq<u8>;

/// `BytesMut::new`: an empty buffer.
#[verifier::external_body]
pub(crate) fn buf_new() -> (r: BytesMut)
    ensures
        bytes_contents(r) == Seq::<u8>::empty(),
{
    BytesMut::new()
}

/// `BytesMut::len`: the number of bytes held.
#[verifier::external_body]
pub(crate) fn buf_len(b: &BytesMut) -> (r: usize)
    ensures
        r == bytes_contents(*b).len(),
{
    b.len()
}

/// `Buf::remaining` on a `BytesMut`: its source returns `self.len()`.
#[verifier::external_body]
pub(crate) fn buf_remaining(b: &BytesMut) -> (r: usize)
    ensures
        r == bytes_contents(*b).len(),
{
    bytes::Buf::remaining(b)
}

/// `Buf::get_u8`: takes the first byte off the front (it panics on an empty
/// buffer, which the `requires` leaves out).
#[verifier::external_body]
pub(crate) fn buf_get_u8(b: &mut BytesMut) -> (r: u8)
    requires
        bytes_contents(*old(b)).len() >= 1,
    ensures
        r == bytes_contents(*old(b))[0],
        bytes_contents(*final(b)) == bytes_contents(*old(b)).subrange(
            1,
            bytes_contents(*old(b)).len() as int,
        ),
{
    bytes::Buf::get_u8(b)
}

/// `Buf::get_u16`: takes two bytes off the front and reads them big-endian
/// (it panics with fewer than two bytes, which the `requires` leaves out).
#[verifier::external_body]
pub(crate) fn buf_get_u16(b: &mut BytesMut) -> (r: u16)
    requires
        bytes_contents(*old(b)).len() >= 2,
    ensures
        r == bytes_contents(*old(b))[0] as int * 256 + bytes_contents(*old(b))[1] as int,
        bytes_contents(*final(b)) == bytes_contents(*old(b)).subrange(
            2,
            bytes_contents(*old(b)).len() as int,
        ),
{
    bytes::Buf::get_u16(b)
}

/// `BytesMut::reserve`: grows the capacity and leaves the contents alone.
/// It panics when the new capacity passes `isize::MAX` bytes, which the
/// `requires` leaves out.
#[verifier::external_body]
pub(crate) fn buf_reserve(b: &mut BytesMut, additional: usize)
    requires
        bytes_contents(*old(b)).len() + additional <= isize::MAX,
    ensures
        bytes_contents(*final(b)) == bytes_contents(*old(b)),
{
    b.reserve(additional)
}

/// `BufMut::put_u8`: appends one byte.
#[verifier::external_body]
pub(crate) fn buf_put_u8(b: &mut BytesMut, v: u8)
    requires
        bytes_contents(*old(b)).len() + 1 <= isize::MAX,
    ensures
        bytes_contents(*final(b)) == bytes_contents(*old(b)).push(v),
{
    bytes::BufMut::put_u8(b, v)
}

/// `BufMut::put_u16`: appends two bytes, most significant first.
#[verifier::external_body]
pub(crate) fn buf_put_u16(b: &mut BytesMut, v: u16)
    requires
        bytes_contents(*old(b)).len() + 2 <= isize::MAX,
    ensures
        bytes_contents(*final(b)) == bytes_contents(*old(b)).push((v / 256) as u8).push(
            (v % 256) as u8,
        ),
{
    bytes::BufMut::put_u16(b, v)
}

/// `BytesMut::extend_from_slice`: appends a copy of the slice.
#[verifier::external_body]
pub(crate) fn buf_extend_from_slice(b: &mut BytesMut, s: &[u8])
    requires
        bytes_contents(*old(b)).len() + s@.len() <= isize::MAX,
    ensures
        bytes_contents(*final(b)) == bytes_contents(*old(b)) + s@,
{
    b.extend_from_slice(s)
}

/// `BytesMut::split_to`: hands out the first `at` bytes and keeps the
/// rest (it panics when `at` is past the end, which the `requires` leaves
/// out).
#[verifier::external_body]
pub(crate) fn buf_split_to(b: &mut BytesMut, at: usize) -> (r: BytesMut)
    requires
        at <= bytes_contents(*old(b)).len(),
    ensures
        bytes_contents(r) == bytes_contents(*old(b)).subrange(0, at as int),
        bytes_contents(*final(b)) == bytes_contents(*old(b)).subrange(
            at as int,
            bytes_contents(*old(b)).len() as int,
        ),
{
    b.split_to(at)
}

} // verus!
