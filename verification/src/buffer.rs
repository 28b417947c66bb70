//! What the verified code knows of `bytes::BytesMut`, the growable byte buffer that
//! holds segment payloads and the encoding buffer.
//!
//! Nothing here is proved: each contract restates what the `bytes` crate documents and
//! implements for the method it is attached to.
use bytes::{Bytes, BytesMut};
use vstd::prelude::*;

verus! {

/// `bytes::BytesMut`, opaque to the verifier.
#[verifier::external_type_specification]
#[verifier::external_body]
pub struct ExBytesMut(bytes::BytesMut);

/// The bytes that a `BytesMut` holds, first to last: what `&b[..]` yields.
pub uninterp spec fn bytes_of(b: BytesMut) -> Seq<u8>;

/// `bytes::Bytes`, opaque to the verifier.
#[verifier::external_type_specification]
#[verifier::external_body]
pub struct ExBytes(bytes::Bytes);

/// The bytes that a `Bytes` holds, first to last.
pub uninterp spec fn frozen_of(b: Bytes) -> Seq<u8>;

/// `Bytes::new`: the result holds no bytes.
pub assume_specification[ Bytes::new ]() -> (b: Bytes)
    ensures
        frozen_of(b) == Seq::<u8>::empty(),
;

/// `From<&[u8]>` for `Bytes`: a buffer holding a copy of `src`.
pub assume_specification<'a>[ <Bytes as core::convert::From<&'a [u8]>>::from ](
    src: &'a [u8],
) -> (b: Bytes)
    ensures
        frozen_of(b) == src@,
;

/// `s` cut or padded with `value` to exactly `new_len` bytes.
pub open spec fn resized(s: Seq<u8>, new_len: nat, value: u8) -> Seq<u8> {
    if new_len <= s.len() {
        s.take(new_len as int)
    } else {
        s + Seq::new((new_len - s.len()) as nat, |i: int| value)
    }
}

/// `BytesMut::new`: the result holds no bytes.
pub assume_specification[ BytesMut::new ]() -> (b: BytesMut)
    ensures
        bytes_of(b) == Seq::<u8>::empty(),
;

/// `BytesMut::with_capacity`: the result holds no bytes, whatever room it has. A
/// capacity beyond `isize::MAX` makes the allocation panic and is left out.
pub assume_specification[ BytesMut::with_capacity ](capacity: usize) -> (b: BytesMut)
    requires
        capacity <= isize::MAX,
    ensures
        bytes_of(b) == Seq::<u8>::empty(),
;

/// `BytesMut::len`: the number of bytes held.
pub assume_specification[ BytesMut::len ](b: &BytesMut) -> (n: usize)
    ensures
        n == bytes_of(*b).len(),
;

/// `BytesMut::capacity`: the number of bytes that the buffer can hold without
/// reallocating. How much room the allocator gave is its own matter; what holds of
/// every buffer is that the bytes held are within it.
pub assume_specification[ BytesMut::capacity ](b: &BytesMut) -> (n: usize)
    ensures
        n >= bytes_of(*b).len(),
;

/// `BytesMut::clear`: afterwards no bytes are held.
pub assume_specification[ BytesMut::clear ](b: &mut BytesMut)
    ensures
        bytes_of(*final(b)) == Seq::<u8>::empty(),
;

/// `BytesMut::resize`: truncates to `new_len`, or appends copies of `value` up to
/// `new_len`. A length beyond `isize::MAX` makes the allocation panic and is left out.
pub assume_specification[ BytesMut::resize ](b: &mut BytesMut, new_len: usize, value: u8)
    requires
        new_len <= isize::MAX,
    ensures
        bytes_of(*final(b)) == resized(bytes_of(*old(b)), new_len as nat, value),
;

/// `BytesMut::extend_from_slice`: appends `extend`, growing the buffer as needed. A
/// total beyond `isize::MAX` makes the allocation panic and is left out.
pub assume_specification[ BytesMut::extend_from_slice ](b: &mut BytesMut, extend: &[u8])
    requires
        bytes_of(*old(b)).len() + extend@.len() <= isize::MAX,
    ensures
        bytes_of(*final(b)) == bytes_of(*old(b)) + extend@,
;

/// `AsRef<[u8]>` for `BytesMut`: the slice of the bytes held.
pub assume_specification<'a>[ <BytesMut as core::convert::AsRef<[u8]>>::as_ref ](
    b: &'a BytesMut,
) -> (s: &'a [u8])
    ensures
        s@ == bytes_of(*b),
;

/// The bytes that `b` holds, as a slice.
pub fn contents(b: &BytesMut) -> (s: &[u8])
    ensures
        s@ == bytes_of(*b),
{
    b.as_ref()
}

/// `From<&[u8]>` for `BytesMut`: a buffer holding a copy of `src`.
pub assume_specification<'a>[ <BytesMut as core::convert::From<&'a [u8]>>::from ](
    src: &'a [u8],
) -> (b: BytesMut)
    ensures
        bytes_of(b) == src@,
;

} // verus!
