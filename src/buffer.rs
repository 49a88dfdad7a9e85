use bytes::{Bytes, BytesMut};
use vstd::prelude::*;

verus! {

#[verifier::external_type_specification]
#[verifier::external_body]
pub struct ExBytesMut(BytesMut);

#[verifier::external_type_specification]
#[verifier::external_body]
pub struct ExBytes(Bytes);

/// The bytes written so far into a growable buffer.
pub uninterp spec fn buffer_contents(b: BytesMut) -> Seq<u8>;

/// The bytes held by a frozen, immutable buffer.
pub uninterp spec fn frozen_contents(b: Bytes) -> Seq<u8>;

/// Relies on `bytes::BytesMut::with_capacity`: a new buffer of length zero.
/// It builds a `Vec` of that capacity, which panics above `isize::MAX`.
#[verifier::external_body]
pub(crate) fn buffer_with_capacity(capacity: usize) -> (r: BytesMut)
    requires
        capacity <= isize::MAX,
    ensures
        buffer_contents(r) == Seq::<u8>::empty(),
{
    BytesMut::with_capacity(capacity)
}

/// Relies on `bytes::BytesMut::extend_from_slice`: appends the slice to the
/// end of the buffer, growing it as needed (a length over `isize::MAX` panics).
#[verifier::external_body]
pub(crate) fn buffer_extend(b: &mut BytesMut, extend: &[u8])
    requires
        buffer_contents(*old(b)).len() + extend@.len() <= isize::MAX,
    ensures
        buffer_contents(*final(b)) == buffer_contents(*old(b)) + extend@,
{
    b.extend_from_slice(extend)
}

/// Relies on `bytes::BytesMut::freeze`: the immutable `Bytes` holds the same bytes.
#[verifier::external_body]
pub(crate) fn buffer_freeze(b: BytesMut) -> (r: Bytes)
    ensures
        frozen_contents(r) == buffer_contents(b),
{
    b.freeze()
}

} // verus!
