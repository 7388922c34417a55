//! The byte buffers of the `bytes` crate, as far as this library uses them:
//! a buffer is created empty, grown by appending, and frozen into an
//! immutable value. Nothing here is proved; each contract states what the
//! crate's source shows of the function it stands for.
use vstd::prelude::*;

verus! {

/// `bytes::Bytes`, an immutable buffer of bytes. Its inside is not seen
/// here; [`bytes_contents`] names what it holds.
#[verifier::external_type_specification]
#[verifier::external_body]
pub struct ExBytes(bytes::Bytes);

/// `bytes::BytesMut`, a buffer of bytes that grows. Its inside is not seen
/// here; [`buffer_contents`] names what it holds.
#[verifier::external_type_specification]
#[verifier::external_body]
pub struct ExBytesMut(bytes::BytesMut);

/// The bytes that a frozen buffer holds, in order.
pub uninterp spec fn bytes_contents(b: bytes::Bytes) -> Seq<u8>;

/// The bytes that a growable buffer holds, in order.
pub uninterp spec fn buffer_contents(b: bytes::BytesMut) -> Seq<u8>;

/// `BytesMut::new` returns a buffer that holds no bytes.
pub assume_specification[ bytes::BytesMut::new ]() -> (b: bytes::BytesMut)
    ensures
        buffer_contents(b) == Seq::<u8>::empty(),
;

/// `BytesMut::freeze` turns the buffer into an immutable one that holds the
/// same bytes.
pub assume_specification[ bytes::BytesMut::freeze ](b: bytes::BytesMut) -> (r: bytes::Bytes)
    ensures
        bytes_contents(r) == buffer_contents(b),
;

/// `BufMut::put_slice` on a `BytesMut` appends the bytes of `src`, growing
/// the buffer as needed. It panics where the new length would overflow the
/// largest allocation, which `requires` leaves out.
#[verifier::external_body]
pub(crate) fn buffer_put_slice(buffer: &mut bytes::BytesMut, src: &[u8])
    requires
        buffer_contents(*old(buffer)).len() + src@.len() <= isize::MAX,
    ensures
        buffer_contents(*final(buffer)) == buffer_contents(*old(buffer)) + src@,
{
    bytes::BufMut::put_slice(buffer, src);
}

} // verus!
