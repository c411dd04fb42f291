//! The growable byte buffer that a connection reads into and writes from.
use vstd::prelude::*;

verus! {

/// `bytes::BytesMut`, held as an opaque value; what it holds is `buf_contents`.
#[verifier::external_type_specification]
#[verifier::external_body]
pub struct ExBytesMut(bytes::BytesMut);

/// The bytes that a buffer holds, front first.
pub uninterp spec fn buf_contents(b: bytes::BytesMut) -> Seq<u8>;

/// Largest length a buffer can grow to: `BytesMut` panics beyond it.
pub open spec fn buf_limit() -> int {
    isize::MAX as int
}

/// Relies on `BytesMut::len`: the number of bytes held.
pub assume_specification[ bytes::BytesMut::len ](b: &bytes::BytesMut) -> (r: usize)
    ensures
        r as int == buf_contents(*b).len(),
;

/// Relies on `BytesMut::extend_from_slice`: the slice is appended at the back.
/// It reserves capacity first, which panics when the total would overflow.
pub assume_specification[ bytes::BytesMut::extend_from_slice ](
    b: &mut bytes::BytesMut,
    extend: &[u8],
)
    requires
        buf_contents(*old(b)).len() + extend@.len() <= buf_limit(),
    ensures
        buf_contents(*final(b)) == buf_contents(*old(b)) + extend@,
;

/// Relies on `BytesMut::split_to`: the first `at` bytes leave the buffer and are
/// returned; it panics when `at` exceeds the length.
pub assume_specification[ bytes::BytesMut::split_to ](b: &mut bytes::BytesMut, at: usize) -> (r:
    bytes::BytesMut)
    requires
        at <= buf_contents(*old(b)).len(),
    ensures
        buf_contents(r) == buf_contents(*old(b)).take(at as int),
        buf_contents(*final(b)) == buf_contents(*old(b)).skip(at as int),
;

/// Relies on `BytesMut`'s `AsRef<[u8]>`: a view of the bytes held.
#[verifier::external_body]
pub(crate) fn buf_bytes(b: &bytes::BytesMut) -> (r: &[u8])
    ensures
        r@ == buf_contents(*b),
{
    b.as_ref()
}

} // verus!
