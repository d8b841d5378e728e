//! The buffered reader: bytes arrive from the connection in chunks of any
//! size and are kept until a whole frame is there, which is then decoded and
//! dropped from the buffer.

use crate::buf;
use crate::error::Error;
use crate::frame::Framed;
use crate::framing::{
    after_first, all_fit, complete, concat, first_payload, frame, frames, header_len,
    lemma_chunks_do_not_matter, lemma_frames_push, lemma_round_trip, lemma_round_trip_whole,
    lemma_truncated_frame, needed, payload_len, payloads, remainder, unread, yielded,
};
use crate::message::Message;
use crate::wire::{be_u32, lemma_be_u32_of_u32_be, read_u32_be, u32_be, LEN_SIZE};
use crate::writer::{AsyncDestination, AsyncFrameDestination};
use bytes::BytesMut;
use std::marker::PhantomData;
use vstd::prelude::*;
use vstd::slice::slice_subrange;
use vstd::std_specs::convert::FromSpecImpl;

verus! {

/// The capacity that a read buffer starts with.
pub const BUFFER_SIZE: usize = 8192;

/// The largest number of bytes that a buffer can hold on this machine.
pub fn max_len() -> (n: usize)
    ensures
        n == isize::MAX,
{
    isize::MAX as usize
}

/// A capacity after it was asked to hold `target` bytes: it grows to the
/// target where it was smaller, and never shrinks.
pub open spec fn grown(capacity: nat, target: nat) -> nat {
    if capacity < target {
        target
    } else {
        capacity
    }
}

/// How an attempt to fill the buffer ended.
#[derive(Debug, Clone, Copy, PartialEq, Eq, Structural)]
pub enum FillResult {
    /// Bytes arrived and are in the buffer.
    Filled,
    /// The input ended, and it ended between two messages.
    Eof,
}

/// What the buffer asks for before its first frame can be taken.
#[derive(Debug, Clone, Copy, PartialEq, Eq, Structural)]
pub enum Demand {
    /// The first frame is complete: its length word, and the number of
    /// payload bytes behind the word.
    Frame { word: u32, len: usize },
    /// More bytes are needed; the buffer has room for `max` of them.
    Fill { max: usize },
    /// The length word announces more bytes than a buffer can hold.
    TooLarge,
}

/// The bytes received and not yet decoded, with the capacity that reads may
/// fill. The capacity only grows, and the bytes never exceed it.
#[derive(Debug)]
pub struct ReadBuffer {
    buffer: BytesMut,
    capacity: usize,
}

impl ReadBuffer {
    #[verifier::type_invariant]
    spec fn within_capacity(self) -> bool {
        buf::contents(self.buffer).len() <= self.capacity <= isize::MAX
    }

    /// The bytes in the buffer, in the order in which they arrived.
    pub closed spec fn bytes(&self) -> Seq<u8> {
        buf::contents(self.buffer)
    }

    /// The number of bytes that the buffer is ready to hold.
    pub closed spec fn capacity(&self) -> nat {
        self.capacity as nat
    }

    /// An empty buffer of the starting capacity.
    pub fn new() -> (b: Self)
        ensures
            b.bytes() == Seq::<u8>::empty(),
            b.capacity() == BUFFER_SIZE,
    {
        ReadBuffer { buffer: buf::with_capacity(BUFFER_SIZE), capacity: BUFFER_SIZE }
    }

    /// Moves the storage and the capacity out and leaves an empty buffer of
    /// no capacity.
    fn take(&mut self) -> (parts: (BytesMut, usize))
        ensures
            buf::contents(parts.0) == old(self).bytes(),
            parts.1 == old(self).capacity(),
            buf::contents(parts.0).len() <= parts.1 <= isize::MAX,
            final(self).bytes() == Seq::<u8>::empty(),
            final(self).capacity() == 0,
    {
        proof {
            use_type_invariant(&*self);
        }
        let mut taken = ReadBuffer { buffer: buf::with_capacity(0), capacity: 0 };
        std::mem::swap(self, &mut taken);
        let ReadBuffer { buffer, capacity } = taken;
        (buffer, capacity)
    }

    /// The number of bytes in the buffer.
    pub fn len(&self) -> (n: usize)
        ensures
            n == self.bytes().len(),
            n <= self.capacity() <= isize::MAX,
    {
        proof {
            use_type_invariant(self);
        }
        buf::len(&self.buffer)
    }

    /// Whether the buffer holds no bytes.
    pub fn is_empty(&self) -> (e: bool)
        ensures
            e == (self.bytes().len() == 0),
    {
        buf::len(&self.buffer) == 0
    }

    /// The number of bytes that the buffer is ready to hold.
    pub fn limit(&self) -> (n: usize)
        ensures
            n == self.capacity(),
            self.bytes().len() <= n <= isize::MAX,
    {
        proof {
            use_type_invariant(self);
        }
        self.capacity
    }

    /// The room behind the bytes held: how many bytes a read may deliver
    /// without the capacity growing.
    pub fn spare(&self) -> (n: usize)
        ensures
            n == self.capacity() - self.bytes().len(),
    {
        proof {
            use_type_invariant(self);
        }
        self.capacity - buf::len(&self.buffer)
    }

    /// The bytes in the buffer.
    pub fn as_slice(&self) -> (s: &[u8])
        ensures
            s@ == self.bytes(),
    {
        buf::as_slice(&self.buffer)
    }

    /// Grows the capacity to `target` where it is smaller. It never shrinks,
    /// and the bytes stay as they are.
    pub fn grow(&mut self, target: usize)
        requires
            target <= isize::MAX,
        ensures
            final(self).bytes() == old(self).bytes(),
            final(self).capacity() == grown(old(self).capacity(), target as nat),
    {
        let (mut buffer, mut capacity) = self.take();
        if capacity < target {
            capacity = target;
        }
        let held = buf::len(&buffer);
        buf::reserve(&mut buffer, capacity - held);
        *self = ReadBuffer { buffer, capacity };
    }

    /// Drops the first `n` bytes: those of a frame that has been taken.
    pub fn consume(&mut self, n: usize)
        requires
            n <= old(self).bytes().len(),
        ensures
            final(self).bytes() == old(self).bytes().skip(n as int),
            final(self).capacity() == old(self).capacity(),
    {
        let (mut buffer, capacity) = self.take();
        buf::advance(&mut buffer, n);
        *self = ReadBuffer { buffer, capacity };
    }

    /// Hands out all the bytes in a buffer of their own and leaves this one
    /// empty. Both have the capacity that this one had.
    pub fn split(&mut self) -> (taken: ReadBuffer)
        ensures
            taken.bytes() == old(self).bytes(),
            taken.capacity() == old(self).capacity(),
            final(self).bytes() == Seq::<u8>::empty(),
            final(self).capacity() == old(self).capacity(),
    {
        let (mut buffer, capacity) = self.take();
        let bytes = buf::split(&mut buffer);
        *self = ReadBuffer { buffer, capacity };
        ReadBuffer { buffer: bytes, capacity }
    }

    /// Decides what has to happen before the first frame can be taken. The
    /// bytes stay as they are. Where more bytes are needed, the capacity
    /// grows to hold the whole frame, as far as it is known.
    pub fn demand(&mut self, packed: bool) -> (d: Demand)
        ensures
            final(self).bytes() == old(self).bytes(),
            old(self).bytes().len() <= isize::MAX,
            complete(old(self).bytes(), packed) ==> d == (Demand::Frame {
                word: be_u32(old(self).bytes()),
                len: payload_len(be_u32(old(self).bytes()), packed) as usize,
            }) && final(self).capacity() == old(self).capacity(),
            !complete(old(self).bytes(), packed) && needed(old(self).bytes(), packed) > isize::MAX
                ==> d == Demand::TooLarge && final(self).capacity() == old(self).capacity(),
            !complete(old(self).bytes(), packed) && needed(old(self).bytes(), packed) <= isize::MAX
                ==> d == (Demand::Fill {
                max: (final(self).capacity() - old(self).bytes().len()) as usize,
            }) && final(self).capacity() == grown(
                old(self).capacity(),
                needed(old(self).bytes(), packed),
            ),
    {
        let held = self.len();
        let mut total: u64 = 4;
        let mut word: u32 = 0;
        if held >= LEN_SIZE {
            word = read_u32_be(self.as_slice());
            let announced: u64 = if packed {
                (word / 0x100_0000) as u64 + (word % 0x100_0000) as u64
            } else {
                word as u64
            };
            total = 4 + announced;
        }
        assert(total == needed(self.bytes(), packed));
        if total <= held as u64 {
            return Demand::Frame { word, len: (total - 4) as usize };
        }
        if total > max_len() as u64 {
            return Demand::TooLarge;
        }
        self.grow(total as usize);
        Demand::Fill { max: self.spare() }
    }

    /// Takes in what a read delivered. An empty chunk is the end of the
    /// input: a clean end where no byte is unread, a broken pipe in the
    /// middle of a message. Other chunks are appended, and the capacity
    /// grows where a chunk is longer than the room that was left. A chunk
    /// that would make the buffer longer than this machine allows is
    /// refused.
    pub fn fill(&mut self, chunk: &[u8]) -> (r: Result<FillResult, Error>)
        ensures
            r == end_or_more(old(self).bytes(), chunk@),
            final(self).bytes() == if r is Ok {
                old(self).bytes() + chunk@
            } else {
                old(self).bytes()
            },
            final(self).capacity() == if r is Ok {
                grown(old(self).capacity(), old(self).bytes().len() + chunk@.len())
            } else {
                old(self).capacity()
            },
    {
        let held = self.len();
        if chunk.len() == 0 {
            assert(old(self).bytes() + chunk@ =~= old(self).bytes());
            if held == 0 {
                return Ok(FillResult::Eof);
            } else {
                return Err(Error::BrokenPipe);
            }
        }
        if chunk.len() > max_len() - held {
            return Err(Error::TooLarge);
        }
        self.grow(held + chunk.len());
        let (mut buffer, capacity) = self.take();
        buf::extend_from_slice(&mut buffer, chunk);
        *self = ReadBuffer { buffer, capacity };
        Ok(FillResult::Filled)
    }
}

/// How a read that delivered `chunk` behind `pending` ends.
pub open spec fn end_or_more(pending: Seq<u8>, chunk: Seq<u8>) -> Result<FillResult, Error> {
    if chunk.len() == 0 {
        if pending.len() == 0 {
            Ok(FillResult::Eof)
        } else {
            Err(Error::BrokenPipe)
        }
    } else if pending.len() + chunk.len() > isize::MAX {
        Err(Error::TooLarge)
    } else {
        Ok(FillResult::Filled)
    }
}

/// The value that a payload decodes to, or the error that says it does not.
pub open spec fn decoded<T: Message>(payload: Seq<u8>) -> Result<T, Error> {
    match T::parse(payload) {
        Some(value) => Ok(value),
        None => Err(Error::Decode),
    }
}

/// Whether `r` is what decoding `payload` gives, its first `header_len`
/// bytes taken as the header part.
pub open spec fn is_decoding<T: Framed>(
    r: Result<T, Error>,
    payload: Seq<u8>,
    header_len: nat,
) -> bool {
    &&& r is Ok <==> T::decodable(payload, header_len)
    &&& r matches Ok(value) ==> T::decodes_to(payload, header_len, value)
}

/// What a reader does next.
#[derive(Debug)]
pub enum ReadStep<T> {
    /// Read from the connection, at most `max` bytes, and hand what arrived
    /// to `fill`.
    Fill { max: usize },
    /// The next item of the stream: a message, or the error in its place.
    Item(Result<T, Error>),
}

/// Reads messages of type `T` from a connection `R`, in the wire mode `D`.
#[derive(Debug)]
pub struct AsyncProstReader<R, T, D> {
    reader: R,
    state: ReadBuffer,
    into: PhantomData<T>,
    dest: PhantomData<D>,
}

impl<R, T, D> AsyncProstReader<R, T, D> {
    /// The connection that this reader reads from.
    pub closed spec fn connection(&self) -> R {
        self.reader
    }

    /// The bytes received and not yet decoded.
    pub closed spec fn buffered(&self) -> Seq<u8> {
        self.state.bytes()
    }

    /// The number of bytes that the buffer is ready to hold.
    pub closed spec fn capacity(&self) -> nat {
        self.state.capacity()
    }

    /// Creates a reader with an empty buffer.
    pub fn new(reader: R) -> (r: Self)
        ensures
            r.connection() == reader,
            r.buffered() == Seq::<u8>::empty(),
            r.capacity() == BUFFER_SIZE,
    {
        Self { reader, state: ReadBuffer::new(), into: PhantomData, dest: PhantomData }
    }

    /// Creates a reader that starts with the bytes of `state` unread.
    pub fn with_buffer(reader: R, state: ReadBuffer) -> (r: Self)
        ensures
            r.connection() == reader,
            r.buffered() == state.bytes(),
            r.capacity() == state.capacity(),
    {
        Self { reader, state, into: PhantomData, dest: PhantomData }
    }

    /// The connection, by reference.
    pub fn get_ref(&self) -> (r: &R)
        ensures
            *r == self.connection(),
    {
        &self.reader
    }

    /// The connection, by mutable reference. The buffer stays as it is.
    pub fn get_mut(&mut self) -> (r: &mut R)
        ensures
            *r == old(self).connection(),
            final(self).connection() == *final(r),
            final(self).buffered() == old(self).buffered(),
            final(self).capacity() == old(self).capacity(),
    {
        &mut self.reader
    }

    /// The bytes received and not yet decoded.
    pub fn buffer(&self) -> (b: &[u8])
        ensures
            b@ == self.buffered(),
    {
        self.state.as_slice()
    }

    /// Gives the connection back. Bytes that were received and not yet
    /// decoded are lost.
    pub fn into_inner(self) -> (r: R)
        ensures
            r == self.connection(),
    {
        self.reader
    }

    /// Detaches the unread bytes, so that they can go on with another
    /// connection. This reader is left with an empty buffer.
    pub fn split_buffer(&mut self) -> (taken: ReadBuffer)
        ensures
            taken.bytes() == old(self).buffered(),
            taken.capacity() == old(self).capacity(),
            final(self).buffered() == Seq::<u8>::empty(),
            final(self).capacity() == old(self).capacity(),
            final(self).connection() == old(self).connection(),
    {
        self.state.split()
    }

    /// Takes in what a read from the connection delivered: see
    /// `ReadBuffer::fill`.
    pub fn fill(&mut self, chunk: &[u8]) -> (r: Result<FillResult, Error>)
        ensures
            r == end_or_more(old(self).buffered(), chunk@),
            final(self).buffered() == if r is Ok {
                old(self).buffered() + chunk@
            } else {
                old(self).buffered()
            },
            final(self).capacity() == if r is Ok {
                grown(old(self).capacity(), old(self).buffered().len() + chunk@.len())
            } else {
                old(self).capacity()
            },
            final(self).connection() == old(self).connection(),
    {
        self.state.fill(chunk)
    }
}

impl<R, T, D> FromSpecImpl<R> for AsyncProstReader<R, T, D> {
    open spec fn obeys_from_spec() -> bool {
        false
    }

    open spec fn from_spec(reader: R) -> Self {
        arbitrary()
    }
}

impl<R, T, D> From<R> for AsyncProstReader<R, T, D> {
    fn from(reader: R) -> (r: Self)
        ensures
            r.connection() == reader,
            r.buffered() == Seq::<u8>::empty(),
            r.capacity() == BUFFER_SIZE,
    {
        Self::new(reader)
    }
}

impl<R: Default, T, D> Default for AsyncProstReader<R, T, D> {
    fn default() -> (r: Self)
        ensures
            call_ensures(R::default, (), r.connection()),
            r.buffered() == Seq::<u8>::empty(),
            r.capacity() == BUFFER_SIZE,
    {
        Self::new(R::default())
    }
}

impl<R, T: Message> AsyncProstReader<R, T, AsyncDestination> {
    /// Decides what the reader does next. While the first frame is not
    /// complete, the connection is to be read, and the buffer keeps its
    /// bytes. Once it is complete, its payload is decoded and the frame is
    /// dropped from the buffer, whether the payload decodes or not.
    pub fn poll_step(&mut self) -> (step: ReadStep<T>)
        ensures
            final(self).connection() == old(self).connection(),
            final(self).capacity() == if complete(old(self).buffered(), false) || needed(
                old(self).buffered(),
                false,
            ) > isize::MAX {
                old(self).capacity()
            } else {
                grown(old(self).capacity(), needed(old(self).buffered(), false))
            },
            complete(old(self).buffered(), false) ==> step == ReadStep::Item(
                decoded::<T>(first_payload(old(self).buffered(), false)),
            ) && final(self).buffered() == after_first(old(self).buffered(), false),
            !complete(old(self).buffered(), false) ==> final(self).buffered() == old(
                self,
            ).buffered(),
            !complete(old(self).buffered(), false) && needed(old(self).buffered(), false)
                > isize::MAX ==> step == ReadStep::<T>::Item(Err(Error::TooLarge)),
            !complete(old(self).buffered(), false) && needed(old(self).buffered(), false)
                <= isize::MAX ==> step == (ReadStep::<T>::Fill {
                max: (final(self).capacity() - old(self).buffered().len()) as usize,
            }),
    {
        match self.state.demand(false) {
            Demand::Frame { len, .. } => {
                let end = LEN_SIZE + len;
                let item = match T::decode(slice_subrange(self.state.as_slice(), LEN_SIZE, end)) {
                    Ok(value) => Ok(value),
                    Err(_) => Err(Error::Decode),
                };
                self.state.consume(end);
                ReadStep::Item(item)
            },
            Demand::Fill { max } => ReadStep::Fill { max },
            Demand::TooLarge => ReadStep::Item(Err(Error::TooLarge)),
        }
    }
}

impl<R, T: Framed> AsyncProstReader<R, T, AsyncFrameDestination> {
    /// Decides what the reader does next, where each frame starts with a
    /// packed length word. While the first frame is not complete, the
    /// connection is to be read, and the buffer keeps its bytes. Once it is
    /// complete, header and body are decoded and the frame is dropped from
    /// the buffer, whether they decode or not.
    pub fn poll_step(&mut self) -> (step: ReadStep<T>)
        ensures
            final(self).connection() == old(self).connection(),
            final(self).capacity() == if complete(old(self).buffered(), true) || needed(
                old(self).buffered(),
                true,
            ) > isize::MAX {
                old(self).capacity()
            } else {
                grown(old(self).capacity(), needed(old(self).buffered(), true))
            },
            complete(old(self).buffered(), true) ==> final(self).buffered() == after_first(
                old(self).buffered(),
                true,
            ),
            complete(old(self).buffered(), true) ==> (step matches ReadStep::Item(r)
                && is_decoding(
                r,
                first_payload(old(self).buffered(), true),
                header_len(be_u32(old(self).buffered())),
            )),
            !complete(old(self).buffered(), true) ==> final(self).buffered() == old(
                self,
            ).buffered(),
            !complete(old(self).buffered(), true) && needed(old(self).buffered(), true)
                > isize::MAX ==> step == ReadStep::<T>::Item(Err(Error::TooLarge)),
            !complete(old(self).buffered(), true) && needed(old(self).buffered(), true)
                <= isize::MAX ==> step == (ReadStep::<T>::Fill {
                max: (final(self).capacity() - old(self).buffered().len()) as usize,
            }),
    {
        match self.state.demand(true) {
            Demand::Frame { word, len } => {
                let end = LEN_SIZE + len;
                let header = (word / 0x100_0000) as usize;
                let item = T::decode(slice_subrange(self.state.as_slice(), LEN_SIZE, end), header);
                self.state.consume(end);
                ReadStep::Item(item)
            },
            Demand::Fill { max } => ReadStep::Fill { max },
            Demand::TooLarge => ReadStep::Item(Err(Error::TooLarge)),
        }
    }
}

/// The encodings of `items`, in order.
pub open spec fn wires<T: Message>(items: Seq<T>) -> Seq<Seq<u8>> {
    Seq::new(items.len(), |i: int| items[i].wire())
}

/// The bytes that a writer with plain length words has buffered once it
/// has accepted `items` one by one, its buffer empty before the first.
pub open spec fn written<T: Message>(items: Seq<T>) -> Seq<u8>
    decreases items.len(),
{
    if items.len() == 0 {
        Seq::empty()
    } else {
        written(items.drop_last()) + frame(items.last().wire())
    }
}

/// What a writer has buffered for `items` are the frames of their
/// encodings, in the order in which it accepted them.
pub proof fn lemma_written_frames<T: Message>(items: Seq<T>)
    ensures
        written(items) == frames(wires(items)),
    decreases items.len(),
{
    if items.len() == 0 {
        assert(wires(items) =~= Seq::<Seq<u8>>::empty());
    } else {
        let before = items.drop_last();
        lemma_written_frames(before);
        lemma_frames_push(wires(before), items.last().wire());
        assert(wires(before).push(items.last().wire()) =~= wires(items));
    }
}

/// What was written is what is read. The bytes that a writer with plain
/// length words buffers for `items` yield, frame by frame, the encodings of
/// `items` in order and nothing else; and where an item is what its own
/// encoding decodes to, the reader's item in its place is that item.
pub proof fn lemma_messages_round_trip<T: Message>(items: Seq<T>)
    requires
        forall|i: int| 0 <= i < items.len() ==> (#[trigger] items[i]).wire().len() <= u32::MAX,
    ensures
        payloads(written(items), false) == wires(items),
        remainder(written(items), false) == Seq::<u8>::empty(),
        forall|i: int|
            0 <= i < items.len() && T::parse((#[trigger] items[i]).wire()) == Some(items[i])
                ==> decoded::<T>(payloads(written(items), false)[i]) == Ok::<T, Error>(items[i]),
{
    assert(all_fit(wires(items))) by {
        assert forall|i: int| 0 <= i < wires(items).len() implies (#[trigger] wires(items)[i]).len()
            <= u32::MAX by {
            assert(wires(items)[i] == items[i].wire());
        }
    }
    lemma_written_frames(items);
    lemma_round_trip_whole(wires(items));
}

/// How the sequence of messages ends when the input ends and `unread` is
/// what is left in the buffer, no complete frame among it. A frame that is
/// too long for this machine is refused as soon as its length word is
/// known. Otherwise the connection is read, and its empty read is a clean
/// end where nothing is unread, and a broken pipe where a part of a message
/// is.
pub open spec fn ending(unread: Seq<u8>, packed: bool) -> Result<FillResult, Error>
    recommends
        !complete(unread, packed),
{
    if needed(unread, packed) > isize::MAX {
        Err(Error::TooLarge)
    } else {
        end_or_more(unread, Seq::empty())
    }
}

/// Input that ends behind the last of its frames ends the sequence of
/// messages, and that is no error: all messages were yielded, and the end
/// is a clean one.
pub proof fn lemma_end_between_messages(items: Seq<Seq<u8>>)
    requires
        all_fit(items),
    ensures
        payloads(frames(items), false) == items,
        remainder(frames(items), false) == Seq::<u8>::empty(),
        end_or_more(remainder(frames(items), false), Seq::empty()) == Ok::<FillResult, Error>(
            FillResult::Eof,
        ),
        ending(remainder(frames(items), false), false) == Ok::<FillResult, Error>(
            FillResult::Eof,
        ),
{
    lemma_round_trip_whole(items);
}

/// Input that ends inside a message ends in an error: the messages before
/// it were yielded, the part that arrived is never yielded as a message and
/// stays unread, and the end is neither a message nor a clean end. It is a
/// broken pipe, unless the length word has arrived and announces a message
/// too long for this machine, which is refused for that.
pub proof fn lemma_end_inside_message(items: Seq<Seq<u8>>, payload: Seq<u8>, k: int)
    requires
        all_fit(items),
        payload.len() <= u32::MAX,
        0 < k < 4 + payload.len(),
    ensures
        payloads(frames(items) + frame(payload).take(k), false) == items,
        remainder(frames(items) + frame(payload).take(k), false) == frame(payload).take(k),
        end_or_more(remainder(frames(items) + frame(payload).take(k), false), Seq::empty())
            == Err::<FillResult, Error>(Error::BrokenPipe),
        ending(remainder(frames(items) + frame(payload).take(k), false), false) == if k >= 4 && 4
            + payload.len() > isize::MAX {
            Err::<FillResult, Error>(Error::TooLarge)
        } else {
            Err::<FillResult, Error>(Error::BrokenPipe)
        },
{
    let part = frame(payload).take(k);
    lemma_round_trip(items, part);
    lemma_truncated_frame(payload, k);
    assert(items + Seq::<Seq<u8>>::empty() =~= items);
    if k >= 4 {
        let n = payload.len() as u32;
        lemma_be_u32_of_u32_be(n);
        assert(part[0] == u32_be(n)[0] && part[1] == u32_be(n)[1] && part[2] == u32_be(n)[2]
            && part[3] == u32_be(n)[3]);
        assert(be_u32(part) == n);
    }
}

/// The same, however the bytes are cut into chunks: of a stream that ends
/// inside a message, a reader that starts empty yields the messages before
/// it and then ends in an error, never in a message made of the part that
/// arrived and never in a clean end.
pub proof fn lemma_end_inside_message_in_chunks(
    items: Seq<Seq<u8>>,
    payload: Seq<u8>,
    k: int,
    chunks: Seq<Seq<u8>>,
)
    requires
        all_fit(items),
        payload.len() <= u32::MAX,
        0 < k < 4 + payload.len(),
        concat(chunks) == frames(items) + frame(payload).take(k),
    ensures
        yielded(Seq::empty(), chunks, false) == items,
        unread(Seq::empty(), chunks, false) == frame(payload).take(k),
        ending(unread(Seq::empty(), chunks, false), false) is Err,
{
    lemma_chunks_do_not_matter(Seq::empty(), chunks, false);
    assert(Seq::<u8>::empty() + concat(chunks) =~= concat(chunks));
    lemma_end_inside_message(items, payload, k);
}

} // verus!
