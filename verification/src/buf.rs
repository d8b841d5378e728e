//! The read buffer's storage: a `bytes::BytesMut` behind contracts.

use bytes::{Buf, BytesMut};
use vstd::prelude::*;

verus! {

/// Declares `bytes::BytesMut`. What it holds is known through `contents`
/// alone.
#[verifier::external_type_specification]
#[verifier::external_body]
pub struct ExBytesMut(BytesMut);

/// The bytes that a `BytesMut` holds, first to last.
pub uninterp spec fn contents(b: BytesMut) -> Seq<u8>;

/// Calls `BytesMut::with_capacity`, which returns a buffer that holds no
/// bytes.
#[verifier::external_body]
pub(crate) fn with_capacity(capacity: usize) -> (b: BytesMut)
    requires
        capacity <= isize::MAX,
    ensures
        contents(b) == Seq::<u8>::empty(),
{
    BytesMut::with_capacity(capacity)
}

/// Calls `BytesMut::len`, the number of bytes held.
#[verifier::external_body]
pub(crate) fn len(b: &BytesMut) -> (n: usize)
    ensures
        n == contents(*b).len(),
{
    b.len()
}

/// Calls `BytesMut::reserve`, which makes room for `additional` more bytes
/// and leaves the bytes held as they are.
#[verifier::external_body]
pub(crate) fn reserve(b: &mut BytesMut, additional: usize)
    requires
        contents(*old(b)).len() + additional <= isize::MAX,
    ensures
        contents(*final(b)) == contents(*old(b)),
{
    b.reserve(additional)
}

/// Calls `BytesMut::extend_from_slice`, which appends `extend` to the bytes
/// held.
#[verifier::external_body]
pub(crate) fn extend_from_slice(b: &mut BytesMut, extend: &[u8])
    requires
        contents(*old(b)).len() + extend@.len() <= isize::MAX,
    ensures
        contents(*final(b)) == contents(*old(b)) + extend@,
{
    b.extend_from_slice(extend)
}

/// Calls `Buf::advance` of `BytesMut`, which drops the first `cnt` bytes and
/// panics when fewer are held.
#[verifier::external_body]
pub(crate) fn advance(b: &mut BytesMut, cnt: usize)
    requires
        cnt <= contents(*old(b)).len(),
    ensures
        contents(*final(b)) == contents(*old(b)).skip(cnt as int),
{
    b.advance(cnt)
}

/// Calls `AsRef::<[u8]>::as_ref` of `BytesMut`: the bytes held, as a slice.
#[verifier::external_body]
pub(crate) fn as_slice(b: &BytesMut) -> (s: &[u8])
    ensures
        s@ == contents(*b),
{
    b.as_ref()
}

/// Calls `BytesMut::split`, which hands out all the bytes held in a buffer
/// of their own and leaves this one empty.
#[verifier::external_body]
pub(crate) fn split(b: &mut BytesMut) -> (taken: BytesMut)
    ensures
        contents(taken) == contents(*old(b)),
        contents(*final(b)) == Seq::<u8>::empty(),
{
    b.split()
}

} // verus!
