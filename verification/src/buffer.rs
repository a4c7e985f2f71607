//! The growable input buffer, held as `bytes::BytesMut` so the decoder
//! works on the same buffer the transport fills. The type is opaque here;
//! its contents are named by `bytes_view`, and each method the decoder
//! needs is reached through a small trusted wrapper.

use vstd::prelude::*;

verus! {

#[verifier::external_type_specification]
#[verifier::external_body]
pub struct ExBytesMut(bytes::BytesMut);

/// The bytes the buffer currently holds, front first.
pub uninterp spec fn bytes_view(b: bytes::BytesMut) -> Seq<u8>;

/// Relies on bytes::BytesMut::len: the number of bytes the buffer holds.
#[verifier::external_body]
pub(crate) fn buf_len(b: &bytes::BytesMut) -> (n: usize)
    ensures
        n == bytes_view(*b).len(),
{
    b.len()
}

/// Relies on BytesMut's Deref to a byte slice: indexing reads the byte at
/// position `i`; the index is in bounds by the precondition.
#[verifier::external_body]
pub(crate) fn buf_byte(b: &bytes::BytesMut, i: usize) -> (r: u8)
    requires
        i < bytes_view(*b).len(),
    ensures
        r == bytes_view(*b)[i as int],
{
    b[i]
}

/// Relies on bytes::Buf::advance for BytesMut: the first `n` bytes are
/// dropped from the front; it panics only when `n` exceeds the length,
/// which the precondition rules out.
#[verifier::external_body]
pub(crate) fn buf_advance(b: &mut bytes::BytesMut, n: usize)
    requires
        n <= bytes_view(*old(b)).len(),
    ensures
        bytes_view(*final(b)) == bytes_view(*old(b)).skip(n as int),
{
    bytes::Buf::advance(b, n)
}

/// Relies on bytes::BytesMut::split_to: the first `n` bytes leave the
/// buffer and come back (copied into a plain vector); it panics only when
/// `n` exceeds the length, which the precondition rules out.
#[verifier::external_body]
pub(crate) fn buf_split_to_vec(b: &mut bytes::BytesMut, n: usize) -> (r: Vec<u8>)
    requires
        n <= bytes_view(*old(b)).len(),
    ensures
        r@ == bytes_view(*old(b)).take(n as int),
        bytes_view(*final(b)) == bytes_view(*old(b)).skip(n as int),
{
    b.split_to(n).to_vec()
}

} // verus!
