//! Byte buffers of the `bytes` crate.
use vstd::prelude::*;

verus! {

#[verifier::external_type_specification]
#[verifier::external_body]
pub struct ExBytesMut(bytes::BytesMut);

#[verifier::external_type_specification]
#[verifier::external_body]
pub struct ExBytes(bytes::Bytes);

/// The bytes that a `BytesMut` holds.
pub uninterp spec fn buffer_bytes(buffer: bytes::BytesMut) -> Seq<u8>;

/// The bytes that a `Bytes` holds.
pub uninterp spec fn frozen_bytes(buffer: bytes::Bytes) -> Seq<u8>;

/// Whether a growing buffer of this length can be allocated: doubling it must
/// stay below the largest allocation.
pub open spec fn fits_buffer(len: int) -> bool {
    2 * len <= isize::MAX
}

/// `BytesMut::with_capacity` gives an empty buffer. It panics where the capacity
/// is larger than an allocation can be.
#[verifier::external_body]
pub(crate) fn buffer_with_capacity(capacity: usize) -> (buffer: bytes::BytesMut)
    requires
        capacity <= isize::MAX,
    ensures
        buffer_bytes(buffer) == Seq::<u8>::empty(),
{
    bytes::BytesMut::with_capacity(capacity)
}

/// `BytesMut::extend_from_slice` appends the bytes of `data`. It panics where the
/// grown buffer cannot be allocated.
#[verifier::external_body]
pub(crate) fn buffer_extend(buffer: &mut bytes::BytesMut, data: &[u8])
    requires
        fits_buffer((buffer_bytes(*old(buffer)).len() + data@.len()) as int),
    ensures
        buffer_bytes(*final(buffer)) == buffer_bytes(*old(buffer)) + data@,
{
    buffer.extend_from_slice(data)
}

/// `BytesMut::split_to` takes the first `at` bytes off the buffer and returns
/// them. It panics where the buffer holds fewer.
#[verifier::external_body]
pub(crate) fn buffer_split_to(buffer: &mut bytes::BytesMut, at: usize) -> (front: bytes::BytesMut)
    requires
        at <= buffer_bytes(*old(buffer)).len(),
    ensures
        buffer_bytes(front) == buffer_bytes(*old(buffer)).take(at as int),
        buffer_bytes(*final(buffer)) == buffer_bytes(*old(buffer)).skip(at as int),
{
    buffer.split_to(at)
}

/// `BytesMut::len` counts the bytes in the buffer.
#[verifier::external_body]
pub(crate) fn buffer_len(buffer: &bytes::BytesMut) -> (len: usize)
    ensures
        len == buffer_bytes(*buffer).len(),
{
    buffer.len()
}

/// `BytesMut::freeze` keeps the bytes.
#[verifier::external_body]
pub(crate) fn buffer_freeze(buffer: bytes::BytesMut) -> (frozen: bytes::Bytes)
    ensures
        frozen_bytes(frozen) == buffer_bytes(buffer),
{
    buffer.freeze()
}

/// `Bytes` as a slice of what it holds (`AsRef::as_ref`).
#[verifier::external_body]
pub(crate) fn frozen_slice(frozen: &bytes::Bytes) -> (slice: &[u8])
    ensures
        slice@ == frozen_bytes(*frozen),
{
    frozen.as_ref()
}

}
