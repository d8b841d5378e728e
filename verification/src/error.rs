//! What can go wrong while framing or unframing messages.

use vstd::prelude::*;

verus! {

/// A message's bytes are malformed for the type they should decode to.
#[derive(Debug, Clone, Copy, PartialEq, Eq, Structural)]
pub struct DecodeError;

/// The outcome of a failed operation of a reader or a writer.
#[derive(Debug, Clone, Copy, PartialEq, Eq, Structural)]
pub enum Error {
    /// A complete message was received, but its bytes do not decode.
    Decode,
    /// The input ended in the middle of a message.
    BrokenPipe,
    /// A message does not fit the length word that is to announce it, or
    /// more bytes would have to be buffered than this machine allows.
    TooLarge,
    /// A frame without a body cannot be encoded.
    MissingBody,
}

} // verus!
