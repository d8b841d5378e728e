//! The capability that a message type brings: a wire encoding.

use crate::error::DecodeError;
use vstd::prelude::*;

verus! {

/// A value that can be encoded to bytes and decoded from them.
///
/// The two spec functions name what the executable methods compute, so that
/// the contracts of readers and writers can speak of encodings. An
/// implementation in verified code defines them and is held to them. One
/// written elsewhere cannot define them: there they stand for what its
/// methods compute, and it is bound to the contracts by promise: `encode`
/// appends the same bytes whenever it is called on the same value,
/// `encoded_len` is their number, and `decode` depends on the bytes alone.
pub trait Message: Sized {
    /// The bytes that encode this value.
    open spec fn wire(&self) -> Seq<u8> {
        arbitrary()
    }

    /// The value that `bytes` decode to, if they are well formed.
    open spec fn parse(bytes: Seq<u8>) -> Option<Self> {
        arbitrary()
    }

    /// The number of bytes that `encode` appends.
    fn encoded_len(&self) -> (n: usize)
        ensures
            n == self.wire().len(),
    ;

    /// Appends the encoding of this value to `buf`.
    fn encode(&self, buf: &mut Vec<u8>)
        ensures
            final(buf)@ == old(buf)@ + self.wire(),
    ;

    /// Decodes a value from exactly the bytes given.
    fn decode(bytes: &[u8]) -> (r: Result<Self, DecodeError>)
        ensures
            r matches Ok(v) ==> Self::parse(bytes@) == Some(v),
            r is Err ==> Self::parse(bytes@) is None,
    ;
}

/// The message without content: it is encoded as no bytes at all, and only
/// no bytes at all decode to it.
impl Message for () {
    open spec fn wire(&self) -> Seq<u8> {
        Seq::empty()
    }

    open spec fn parse(bytes: Seq<u8>) -> Option<Self> {
        if bytes.len() == 0 {
            Some(())
        } else {
            None
        }
    }

    fn encoded_len(&self) -> (n: usize) {
        0
    }

    fn encode(&self, buf: &mut Vec<u8>) {
        assert(buf@ + Seq::<u8>::empty() =~= buf@);
    }

    fn decode(bytes: &[u8]) -> (r: Result<Self, DecodeError>) {
        if bytes.len() == 0 {
            Ok(())
        } else {
            Err(DecodeError)
        }
    }
}

} // verus!
