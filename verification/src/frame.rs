//! The frame envelope: an optional header, and a body that is decoded or
//! kept as raw bytes, as the header says.

use crate::error::Error;
use crate::message::Message;
use either::Either;
use vstd::prelude::*;
use vstd::slice::{slice_subrange, slice_to_vec};

verus! {

/// Declares `either::Either` with its two variants, `Left` and `Right`.
#[verifier::external_type_specification]
#[verifier::reject_recursive_types(L)]
#[verifier::reject_recursive_types(R)]
pub struct ExEither<L, R>(Either<L, R>);

/// A header and a body that travel as one message.
#[derive(Debug)]
#[verifier::reject_recursive_types(T)]
pub struct Frame<H, T> {
    /// The header, if the frame has one.
    pub header: Option<H>,
    /// The body: raw bytes on the left, a decoded value on the right.
    pub body: Option<Either<Vec<u8>, T>>,
}

impl<H, T> Default for Frame<H, T> {
    fn default() -> (frame: Self)
        ensures
            frame.header is None,
            frame.body is None,
    {
        Self { header: None, body: None }
    }
}

/// Says whether the body behind a header is to be decoded.
pub trait ShallDecodeBody {
    /// What `shall_decode_body` returns. An implementation in verified code
    /// defines it; one written elsewhere cannot, and promises that the
    /// answer depends on the header alone.
    open spec fn decodes_body(&self) -> bool {
        arbitrary()
    }

    /// Whether the body is to be decoded; where not, it is kept as raw
    /// bytes.
    fn shall_decode_body(&self) -> (decode: bool)
        ensures
            decode == self.decodes_body(),
    ;
}

/// A value made of a header part and a body part, which a length word
/// tells apart on the wire.
///
/// The spec functions name what the executable methods compute. An
/// implementation in verified code defines them and is held to them; one
/// written elsewhere cannot define them and is bound to the contracts by
/// promise.
pub trait Framed: Sized {
    /// The bytes of the header part, then those of the body part.
    open spec fn wire(&self) -> Seq<u8> {
        arbitrary()
    }

    /// The length word that announces the two parts.
    open spec fn length_word(&self) -> u32 {
        arbitrary()
    }

    /// Whether this value can be encoded.
    open spec fn encodable(&self) -> bool {
        arbitrary()
    }

    /// Whether `buf` decodes, its first `header_len` bytes taken as the
    /// header part.
    open spec fn decodable(buf: Seq<u8>, header_len: nat) -> bool {
        arbitrary()
    }

    /// Whether `value` is what `buf` decodes to.
    open spec fn decodes_to(buf: Seq<u8>, header_len: nat, value: Self) -> bool {
        arbitrary()
    }

    /// Decodes the header part, if there is one, and the body part.
    fn decode(buf: &[u8], header_len: usize) -> (r: Result<Self, Error>)
        requires
            header_len <= buf@.len(),
        ensures
            r is Ok <==> Self::decodable(buf@, header_len as nat),
            r matches Ok(value) ==> Self::decodes_to(buf@, header_len as nat, value),
    ;

    /// The length word for this value.
    fn encoded_len(&self) -> (word: u32)
        ensures
            word == self.length_word(),
    ;

    /// Appends the header part and the body part to `buf`. A value that
    /// cannot be encoded leaves `buf` as it was.
    fn encode(&self, buf: &mut Vec<u8>) -> (r: Result<(), Error>)
        ensures
            r is Ok <==> self.encodable(),
            r is Ok ==> final(buf)@ == old(buf)@ + self.wire(),
            r is Err ==> final(buf)@ == old(buf)@,
    ;
}

impl<H: Message, T: Message> Frame<H, T> {
    /// The bytes of the header: none where there is no header.
    pub open spec fn header_wire(&self) -> Seq<u8> {
        match self.header {
            Some(header) => header.wire(),
            None => Seq::empty(),
        }
    }

    /// The bytes of the body: raw bytes as they are, a value by its
    /// encoding.
    pub open spec fn body_wire(&self) -> Seq<u8> {
        match self.body {
            Some(Either::Left(raw)) => raw@,
            Some(Either::Right(value)) => value.wire(),
            None => Seq::empty(),
        }
    }
}

/// A frame is encoded as its header's bytes, if it has a header, and then
/// its body's bytes; one without a body cannot be encoded. It is decoded
/// from a header part, which gives the header, and a body part, which is
/// decoded where the header asks for that and kept as raw bytes where it
/// does not. Where the header part is empty, the frame has no header and
/// the body is decoded.
impl<H: Message + ShallDecodeBody, T: Message> Framed for Frame<H, T> {
    open spec fn wire(&self) -> Seq<u8> {
        self.header_wire() + self.body_wire()
    }

    open spec fn length_word(&self) -> u32 {
        crate::framing::length_word(self.header_wire().len(), self.body_wire().len())
    }

    open spec fn encodable(&self) -> bool {
        self.body is Some
    }

    open spec fn decodable(buf: Seq<u8>, header_len: nat) -> bool {
        if header_len == 0 {
            T::parse(buf) is Some
        } else {
            match H::parse(buf.take(header_len as int)) {
                Some(header) => header.decodes_body() ==> T::parse(buf.skip(header_len as int))
                    is Some,
                None => false,
            }
        }
    }

    open spec fn decodes_to(buf: Seq<u8>, header_len: nat, value: Self) -> bool {
        let rest = buf.skip(header_len as int);
        &&& header_len == 0 ==> value.header is None
        &&& header_len > 0 ==> value.header == H::parse(buf.take(header_len as int))
        &&& if header_len == 0 || value.header->0.decodes_body() {
            value.body matches Some(Either::Right(body)) && T::parse(rest) == Some(body)
        } else {
            value.body matches Some(Either::Left(raw)) && raw@ == rest
        }
    }

    fn decode(buf: &[u8], header_len: usize) -> (r: Result<Self, Error>)
        ensures
            r is Err ==> r == Err::<Self, Error>(Error::Decode),
    {
        let header: Option<H>;
        let decode_body: bool;
        proof {
            assert(buf@.subrange(0, header_len as int) =~= buf@.take(header_len as int));
            assert(buf@.subrange(header_len as int, buf@.len() as int) =~= buf@.skip(
                header_len as int,
            ));
            assert(buf@.skip(0) =~= buf@);
        }
        if header_len > 0 {
            match H::decode(slice_subrange(buf, 0, header_len)) {
                Ok(value) => {
                    decode_body = value.shall_decode_body();
                    header = Some(value);
                },
                Err(_) => {
                    return Err(Error::Decode);
                },
            }
        } else {
            header = None;
            decode_body = true;
        }
        let body_buf = slice_subrange(buf, header_len, buf.len());
        if decode_body {
            match T::decode(body_buf) {
                Ok(value) => Ok(Frame { header, body: Some(Either::Right(value)) }),
                Err(_) => Err(Error::Decode),
            }
        } else {
            Ok(Frame { header, body: Some(Either::Left(slice_to_vec(body_buf))) })
        }
    }

    fn encoded_len(&self) -> (word: u32) {
        let header_len: usize = match &self.header {
            Some(header) => header.encoded_len(),
            None => 0,
        };
        let body_len: usize = match &self.body {
            Some(Either::Left(raw)) => raw.len(),
            Some(Either::Right(value)) => value.encoded_len(),
            None => 0,
        };
        (header_len % 0x100) as u32 * 0x100_0000 + (body_len % 0x100_0000) as u32
    }

    fn encode(&self, buf: &mut Vec<u8>) -> (r: Result<(), Error>)
        ensures
            r is Err ==> r == Err::<(), Error>(Error::MissingBody),
    {
        match &self.body {
            None => Err(Error::MissingBody),
            Some(body) => {
                if let Some(header) = &self.header {
                    header.encode(buf);
                }
                match body {
                    Either::Left(raw) => {
                        buf.extend_from_slice(raw.as_slice());
                    },
                    Either::Right(value) => {
                        value.encode(buf);
                    },
                }
                Ok(())
            },
        }
    }
}

/// The header decides what becomes of the body: behind a header that asks
/// for it, the body is decoded; behind any other, it is kept as the raw
/// bytes that followed the header, unchanged. Where no header bytes came,
/// the frame has no header and the body is always decoded. So the body is
/// raw exactly where there is a header that does not ask for decoding.
pub proof fn lemma_header_gates_body<H: Message + ShallDecodeBody, T: Message>(
    buf: Seq<u8>,
    header_len: nat,
    value: Frame<H, T>,
)
    requires
        header_len <= buf.len(),
        Frame::<H, T>::decodable(buf, header_len),
        Frame::<H, T>::decodes_to(buf, header_len, value),
    ensures
        header_len == 0 ==> value.header is None,
        header_len == 0 ==> (value.body matches Some(Either::Right(body)) && T::parse(buf)
            == Some(body)),
        header_len > 0 ==> value.header is Some && H::parse(buf.take(header_len as int))
            == value.header,
        value.body matches Some(Either::Left(_)) <==> (value.header matches Some(header)
            && !header.decodes_body()),
        header_len > 0 && value.header->0.decodes_body() ==> (value.body matches Some(
            Either::Right(body),
        ) && T::parse(buf.skip(header_len as int)) == Some(body)),
        header_len > 0 && !value.header->0.decodes_body() ==> (value.body matches Some(
            Either::Left(raw),
        ) && raw@ == buf.skip(header_len as int)),
{
    assert(buf.skip(0) =~= buf);
}

/// A frame that went over the wire comes back with its header, and with
/// its body as the header says: decoded from the body's bytes, or as
/// exactly the bytes that the body was serialized to. The header is one
/// that its own encoding gives back.
pub proof fn lemma_frame_round_trip<H: Message + ShallDecodeBody, T: Message>(
    sent: Frame<H, T>,
    received: Frame<H, T>,
)
    requires
        sent.header matches Some(header) && header.wire().len() > 0 && H::parse(header.wire())
            == Some(header),
        Frame::<H, T>::decodes_to(sent.wire(), sent.header_wire().len(), received),
    ensures
        received.header == sent.header,
        sent.header->0.decodes_body() ==> (received.body matches Some(Either::Right(body))
            && T::parse(sent.body_wire()) == Some(body)),
        !sent.header->0.decodes_body() ==> (received.body matches Some(Either::Left(raw)) && raw@
            == sent.body_wire()),
{
    let n = sent.header_wire().len() as int;
    assert(sent.wire().take(n) =~= sent.header_wire());
    assert(sent.wire().skip(n) =~= sent.body_wire());
}

} // verus!
