//! What the library takes from the `bytes` crate: its two buffer types, seen
//! as sequences of bytes.

use bytes::{BufMut, Bytes, BytesMut};
use vstd::prelude::*;

verus! {

/// `bytes::Bytes`: an immutable run of bytes that is cheap to clone and slice.
#[verifier::external_type_specification]
#[verifier::external_body]
pub struct ExBytes(bytes::Bytes);

/// `bytes::BytesMut`: a growable run of bytes.
#[verifier::external_type_specification]
#[verifier::external_body]
pub struct ExBytesMut(bytes::BytesMut);

/// The bytes that a `Bytes` holds, in order.
pub uninterp spec fn bytes_view(b: Bytes) -> Seq<u8>;

/// The bytes that a `BytesMut` holds, in order.
pub uninterp spec fn bytes_mut_view(b: BytesMut) -> Seq<u8>;

/// `Bytes::len` returns the number of bytes held.
pub assume_specification[ bytes::Bytes::len ](b: &Bytes) -> (n: usize)
    ensures
        n == bytes_view(*b).len(),
;

/// `Bytes::new` returns a value that holds no byte.
pub assume_specification[ bytes::Bytes::new ]() -> (b: Bytes)
    ensures
        bytes_view(b) == Seq::<u8>::empty(),
;

/// `Clone::clone` of `Bytes`: another handle on the same bytes.
pub assume_specification[ <bytes::Bytes as Clone>::clone ](b: &Bytes) -> (r: Bytes)
    ensures
        bytes_view(r) == bytes_view(*b),
;

/// `BytesMut::with_capacity` returns a buffer that holds no byte, whatever the
/// capacity asked for. (It panics where the capacity is more than the largest
/// `isize`.)
pub assume_specification[ bytes::BytesMut::with_capacity ](capacity: usize) -> (b: BytesMut)
    requires
        capacity <= isize::MAX,
    ensures
        bytes_mut_view(b) == Seq::<u8>::empty(),
;

/// `BytesMut::freeze` turns the buffer into a `Bytes` that holds the same bytes.
pub assume_specification[ bytes::BytesMut::freeze ](b: BytesMut) -> (r: Bytes)
    ensures
        bytes_view(r) == bytes_mut_view(b),
;

/// `Deref::deref` of `Bytes`: the bytes held, as a slice.
#[verifier::external_body]
pub(crate) fn as_slice(b: &Bytes) -> (s: &[u8])
    ensures
        s@ == bytes_view(*b),
{
    &**b
}

/// `Bytes::slice` with a range that is open to the right: the bytes from
/// `begin` on. The outside function panics where `begin` is past the end.
#[verifier::external_body]
pub(crate) fn slice_from(b: &Bytes, begin: usize) -> (r: Bytes)
    requires
        begin <= bytes_view(*b).len(),
    ensures
        bytes_view(r) == bytes_view(*b).skip(begin as int),
{
    b.slice(begin..)
}

/// `Bytes::copy_from_slice`: a new `Bytes` that holds a copy of the bytes of
/// the slice, in order.
#[verifier::external_body]
pub(crate) fn copy_from_slice(data: &[u8]) -> (r: Bytes)
    ensures
        bytes_view(r) == data@,
{
    Bytes::copy_from_slice(data)
}

/// `BufMut::put_u8` of `BytesMut`: appends one byte; the buffer grows as
/// needed. (It panics where the buffer would hold more bytes than the largest
/// `isize`.)
#[verifier::external_body]
pub(crate) fn put_u8(buf: &mut BytesMut, n: u8)
    requires
        bytes_mut_view(*old(buf)).len() < isize::MAX,
    ensures
        bytes_mut_view(*final(buf)) == bytes_mut_view(*old(buf)).push(n),
{
    buf.put_u8(n)
}

/// `BufMut::put` of `BytesMut` with a slice as source: appends the bytes of the
/// slice, in order; the buffer grows as needed. (It panics where the buffer
/// would hold more bytes than the largest `isize`.)
#[verifier::external_body]
pub(crate) fn put(buf: &mut BytesMut, src: &[u8])
    requires
        bytes_mut_view(*old(buf)).len() + src@.len() <= isize::MAX,
    ensures
        bytes_mut_view(*final(buf)) == bytes_mut_view(*old(buf)) + src@,
{
    buf.put(src)
}

} // verus!
