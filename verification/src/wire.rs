//! The wire format of a length prefix: four bytes, most significant first.

use byteorder::{ByteOrder, NetworkEndian};
use vstd::prelude::*;

verus! {

/// Number of bytes in a length prefix.
pub const LEN_SIZE: usize = 4;

/// The four bytes that stand for `n` on the wire, most significant first.
pub open spec fn u32_be(n: u32) -> Seq<u8> {
    seq![
        (n / 0x100_0000) as u8,
        ((n / 0x1_0000) % 0x100) as u8,
        ((n / 0x100) % 0x100) as u8,
        (n % 0x100) as u8,
    ]
}

/// The number that the first four bytes of `s` stand for.
pub open spec fn be_u32(s: Seq<u8>) -> u32
    recommends
        s.len() >= 4,
{
    (s[0] * 0x100_0000 + s[1] * 0x1_0000 + s[2] * 0x100 + s[3]) as u32
}

/// Reading back the bytes of a number gives the number.
pub proof fn lemma_be_u32_of_u32_be(n: u32)
    ensures
        u32_be(n).len() == 4,
        be_u32(u32_be(n)) == n,
{
}

/// Calls `byteorder::ByteOrder::read_u32` for network order, which reads the
/// first four bytes of `buf` as a big-endian number and panics on a shorter
/// slice.
#[verifier::external_body]
pub(crate) fn read_u32_be(buf: &[u8]) -> (n: u32)
    requires
        buf@.len() >= 4,
    ensures
        n == be_u32(buf@),
{
    NetworkEndian::read_u32(buf)
}

/// Calls `byteorder::ByteOrder::write_u32` for network order on a buffer of
/// four bytes, which it fills with the big-endian bytes of `n`.
#[verifier::external_body]
pub(crate) fn write_u32_be(n: u32) -> (out: [u8; 4])
    ensures
        out@ == u32_be(n),
{
    let mut out = [0u8; 4];
    NetworkEndian::write_u32(&mut out, n);
    out
}

/// Encodes `n` as a length prefix.
pub fn encode_len(n: u32) -> (out: [u8; 4])
    ensures
        out@ == u32_be(n),
{
    write_u32_be(n)
}

/// Decodes the length prefix at the start of `buf`.
pub fn decode_len(buf: &[u8]) -> (n: Option<u32>)
    ensures
        buf@.len() < 4 ==> n is None,
        buf@.len() >= 4 ==> n == Some(be_u32(buf@)),
{
    if buf.len() < LEN_SIZE {
        None
    } else {
        Some(read_u32_be(buf))
    }
}

} // verus!
