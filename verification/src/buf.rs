//! The byte buffers of the `bytes` crate, as verified code sees them.
//!
//! `Bytes` and `BytesMut` are opaque here. Each is known by the sequence of
//! bytes it currently holds, and each method that the codec calls is reached
//! through a function of this module whose contract is taken on trust from
//! the `bytes` crate's source. Nothing in this module is proved.

use bytes::{Buf, BufMut, Bytes, BytesMut};
use vstd::prelude::*;

verus! {

/// `bytes::Bytes`: a cheaply cloneable, immutable run of bytes.
#[verifier::external_type_specification]
#[verifier::external_body]
pub struct ExBytes(bytes::Bytes);

/// `bytes::BytesMut`: a growable run of bytes that can be split in place.
#[verifier::external_type_specification]
#[verifier::external_body]
pub struct ExBytesMut(bytes::BytesMut);

/// The bytes that a `Bytes` holds, first to last (what `&b[..]` shows).
pub uninterp spec fn bytes_view(b: Bytes) -> Seq<u8>;

/// The bytes that a `BytesMut` holds, first to last (what `&b[..]` shows).
pub uninterp spec fn bytes_mut_view(b: BytesMut) -> Seq<u8>;

/// Whether `buf` can take `extra` more bytes. The buffer grows through
/// `Vec::reserve`, which panics once a capacity above `isize::MAX` is asked
/// for.
pub open spec fn can_grow(buf: BytesMut, extra: int) -> bool {
    bytes_mut_view(buf).len() + extra <= isize::MAX
}

/// The two bytes of `n`, most significant first.
pub open spec fn u16_be(n: u16) -> Seq<u8> {
    seq![(n / 256) as u8, (n % 256) as u8]
}

/// The number whose big-endian bytes are `hi`, `lo`.
pub open spec fn u16_from_be(hi: u8, lo: u8) -> u16 {
    (hi as int * 256 + lo as int) as u16
}

/// `BytesMut::with_capacity`: the new buffer holds no bytes. Its capacity is
/// not modelled. A capacity above `isize::MAX` panics in `Vec` and is left
/// out.
#[verifier::external_body]
pub(crate) fn buffer_with_capacity(capacity: usize) -> (buf: BytesMut)
    requires
        capacity <= isize::MAX,
    ensures
        bytes_mut_view(buf) == Seq::<u8>::empty(),
{
    BytesMut::with_capacity(capacity)
}

/// `BytesMut::len`: the number of bytes held.
#[verifier::external_body]
pub(crate) fn buffer_len(buf: &BytesMut) -> (n: usize)
    ensures
        n == bytes_mut_view(*buf).len(),
{
    buf.len()
}

/// `<BytesMut as AsRef<[u8]>>::as_ref`: the bytes held, as a slice.
#[verifier::external_body]
pub(crate) fn buffer_slice(buf: &BytesMut) -> (s: &[u8])
    ensures
        s@ == bytes_mut_view(*buf),
{
    buf.as_ref()
}

/// `BytesMut::reserve`: makes room and leaves the bytes held as they are.
#[verifier::external_body]
pub(crate) fn buffer_reserve(buf: &mut BytesMut, additional: usize)
    requires
        can_grow(*old(buf), additional as int),
    ensures
        bytes_mut_view(*final(buf)) == bytes_mut_view(*old(buf)),
{
    buf.reserve(additional)
}

/// `BufMut::put_u8` on a `BytesMut`: appends the byte, growing the buffer
/// as needed.
#[verifier::external_body]
pub(crate) fn buffer_put_u8(buf: &mut BytesMut, n: u8)
    requires
        can_grow(*old(buf), 1),
    ensures
        bytes_mut_view(*final(buf)) == bytes_mut_view(*old(buf)).push(n),
{
    buf.put_u8(n)
}

/// `BufMut::put_u16` on a `BytesMut`: appends the two bytes of `n` in
/// big-endian order, growing the buffer as needed.
#[verifier::external_body]
pub(crate) fn buffer_put_u16(buf: &mut BytesMut, n: u16)
    requires
        can_grow(*old(buf), 2),
    ensures
        bytes_mut_view(*final(buf)) == bytes_mut_view(*old(buf)) + u16_be(n),
{
    buf.put_u16(n)
}

/// `BytesMut::extend_from_slice`: appends the slice, growing the buffer as
/// needed.
#[verifier::external_body]
pub(crate) fn buffer_extend_from_slice(buf: &mut BytesMut, extend: &[u8])
    requires
        can_grow(*old(buf), extend@.len() as int),
    ensures
        bytes_mut_view(*final(buf)) == bytes_mut_view(*old(buf)) + extend@,
{
    buf.extend_from_slice(extend)
}

/// `BytesMut::split_to`: hands out the first `at` bytes and keeps the rest.
/// It panics for `at` beyond the length, which is left out.
#[verifier::external_body]
pub(crate) fn buffer_split_to(buf: &mut BytesMut, at: usize) -> (front: BytesMut)
    requires
        at <= bytes_mut_view(*old(buf)).len(),
    ensures
        bytes_mut_view(front) == bytes_mut_view(*old(buf)).take(at as int),
        bytes_mut_view(*final(buf)) == bytes_mut_view(*old(buf)).skip(at as int),
{
    buf.split_to(at)
}

/// `BytesMut::freeze`: the same bytes, now immutable.
#[verifier::external_body]
pub(crate) fn buffer_freeze(buf: BytesMut) -> (b: Bytes)
    ensures
        bytes_view(b) == bytes_mut_view(buf),
{
    buf.freeze()
}

/// `BytesMut::clear`: drops every byte held.
#[verifier::external_body]
pub(crate) fn buffer_clear(buf: &mut BytesMut)
    ensures
        bytes_mut_view(*final(buf)) == Seq::<u8>::empty(),
{
    buf.clear()
}

/// `<Bytes as From<Vec<u8>>>::from`: takes over the vector's bytes.
#[verifier::external_body]
pub(crate) fn bytes_from_vec(v: Vec<u8>) -> (b: Bytes)
    ensures
        bytes_view(b) == v@,
{
    Bytes::from(v)
}

/// `<Bytes as Clone>::clone`: another handle on the same bytes.
pub assume_specification[ <Bytes as Clone>::clone ](b: &Bytes) -> (c: Bytes)
    ensures
        bytes_view(c) == bytes_view(*b),
;

/// `Bytes::len`: the number of bytes held.
#[verifier::external_body]
pub(crate) fn bytes_len(b: &Bytes) -> (n: usize)
    ensures
        n == bytes_view(*b).len(),
{
    b.len()
}

/// `<Bytes as AsRef<[u8]>>::as_ref`: the bytes held, as a slice.
#[verifier::external_body]
pub(crate) fn bytes_slice(b: &Bytes) -> (s: &[u8])
    ensures
        s@ == bytes_view(*b),
{
    b.as_ref()
}

/// `Buf::advance` on a `Bytes`: drops the first `cnt` bytes. It panics for
/// `cnt` beyond the length, which is left out.
#[verifier::external_body]
pub(crate) fn bytes_advance(b: &mut Bytes, cnt: usize)
    requires
        cnt <= bytes_view(*old(b)).len(),
    ensures
        bytes_view(*final(b)) == bytes_view(*old(b)).skip(cnt as int),
{
    b.advance(cnt)
}

/// `Buf::get_u16` on a `Bytes`: reads the first two bytes as a big-endian
/// number and drops them. It panics on fewer than two bytes, which is left
/// out.
#[verifier::external_body]
pub(crate) fn bytes_get_u16(b: &mut Bytes) -> (n: u16)
    requires
        bytes_view(*old(b)).len() >= 2,
    ensures
        n == u16_from_be(bytes_view(*old(b))[0], bytes_view(*old(b))[1]),
        bytes_view(*final(b)) == bytes_view(*old(b)).skip(2),
{
    b.get_u16()
}

/// `Bytes::split_to`: hands out the first `at` bytes and keeps the rest.
/// It panics for `at` beyond the length, which is left out.
#[verifier::external_body]
pub(crate) fn bytes_split_to(b: &mut Bytes, at: usize) -> (front: Bytes)
    requires
        at <= bytes_view(*old(b)).len(),
    ensures
        bytes_view(front) == bytes_view(*old(b)).take(at as int),
        bytes_view(*final(b)) == bytes_view(*old(b)).skip(at as int),
{
    b.split_to(at)
}

} // verus!
