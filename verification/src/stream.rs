//! The duplex stream: a reader and a writer over one connection, and the
//! split of such a stream into two halves that share nothing.

use crate::error::Error;
use crate::frame::Framed;
use crate::framing::{
    after_first, complete, first_payload, header_len, needed, unread, yielded,
};
use crate::message::Message;
use crate::reader::{
    decoded, end_or_more, grown, is_decoding, AsyncProstReader, FillResult, ReadBuffer, ReadStep,
    BUFFER_SIZE,
};
use crate::wire::be_u32;
use crate::writer::{
    AsyncDestination, AsyncFrameDestination, AsyncProstWriter, FlushStep, ProstWriterFor,
    SyncDestination, WriteBuffer,
};
use vstd::prelude::*;
use vstd::std_specs::convert::FromSpecImpl;

verus! {

/// The writer of a duplex stream, in the place where the stream's reader
/// holds its connection.
#[derive(Debug)]
pub struct InternalAsyncWriter<S, T, D>(AsyncProstWriter<S, T, D>);

impl<S, T, D> InternalAsyncWriter<S, T, D> {
    /// The writer inside.
    pub closed spec fn writer(&self) -> AsyncProstWriter<S, T, D> {
        self.0
    }

    /// Puts a writer in the place of a connection.
    pub fn new(writer: AsyncProstWriter<S, T, D>) -> (w: Self)
        ensures
            w.writer() == writer,
    {
        InternalAsyncWriter(writer)
    }

    /// The writer, by reference.
    pub fn get_ref(&self) -> (w: &AsyncProstWriter<S, T, D>)
        ensures
            *w == self.writer(),
    {
        &self.0
    }

    /// The writer, by mutable reference.
    pub fn get_mut(&mut self) -> (w: &mut AsyncProstWriter<S, T, D>)
        ensures
            *w == old(self).writer(),
            final(self).writer() == *final(w),
    {
        &mut self.0
    }

    /// Gives the writer back.
    pub fn into_inner(self) -> (w: AsyncProstWriter<S, T, D>)
        ensures
            w == self.writer(),
    {
        self.0
    }
}

impl<S, T, D> std::ops::Deref for InternalAsyncWriter<S, T, D> {
    type Target = AsyncProstWriter<S, T, D>;

    fn deref(&self) -> (w: &Self::Target)
        ensures
            *w == self.writer(),
    {
        &self.0
    }
}

/// Receives messages of type `R` and sends messages of type `W` over one
/// connection `S`, in the wire mode `D`.
#[derive(Debug)]
pub struct AsyncProstStream<S, R, W, D> {
    stream: AsyncProstReader<InternalAsyncWriter<S, W, D>, R, D>,
}

impl<S, R, W, D> AsyncProstStream<S, R, W, D> {
    /// The connection that the stream reads from and writes to.
    pub closed spec fn connection(&self) -> S {
        self.stream.connection().writer().connection()
    }

    /// The bytes received and not yet decoded.
    pub closed spec fn unread(&self) -> Seq<u8> {
        self.stream.buffered()
    }

    /// The number of bytes that the read buffer is ready to hold.
    pub closed spec fn capacity(&self) -> nat {
        self.stream.capacity()
    }

    /// All bytes in the write buffer, those already handed to the
    /// connection included.
    pub closed spec fn queued(&self) -> Seq<u8> {
        self.stream.connection().writer().buffered()
    }

    /// How many leading bytes of the write buffer the connection has
    /// accepted.
    pub closed spec fn cursor(&self) -> nat {
        self.stream.connection().writer().cursor()
    }

    /// The bytes that still wait for the connection.
    pub open spec fn unsent(&self) -> Seq<u8> {
        self.queued().skip(self.cursor() as int)
    }

    /// Whether both buffers are empty, as in a stream that was just made.
    pub open spec fn fresh(&self) -> bool {
        &&& self.unread() == Seq::<u8>::empty()
        &&& self.capacity() == BUFFER_SIZE
        &&& self.queued() == Seq::<u8>::empty()
        &&& self.cursor() == 0
    }

    /// A stream over `writer`, with an empty read buffer.
    fn over(writer: AsyncProstWriter<S, W, D>) -> (s: Self)
        ensures
            s.connection() == writer.connection(),
            s.queued() == writer.buffered(),
            s.cursor() == writer.cursor(),
            s.unread() == Seq::<u8>::empty(),
            s.capacity() == BUFFER_SIZE,
    {
        Self { stream: AsyncProstReader::new(InternalAsyncWriter::new(writer)) }
    }

    /// The connection, by reference. Reading from it or writing to it
    /// directly is inadvisable.
    pub fn get_ref(&self) -> (s: &S)
        ensures
            *s == self.connection(),
    {
        self.stream.get_ref().get_ref().get_ref()
    }

    /// The connection, by mutable reference. The buffers stay as they are.
    pub fn get_mut(&mut self) -> (s: &mut S)
        ensures
            *s == old(self).connection(),
            final(self).connection() == *final(s),
            final(self).unread() == old(self).unread(),
            final(self).capacity() == old(self).capacity(),
            final(self).queued() == old(self).queued(),
            final(self).cursor() == old(self).cursor(),
    {
        self.stream.get_mut().get_mut().get_mut()
    }

    /// Gives the connection back. Bytes that were buffered and not yet
    /// sent, and bytes that were received and not yet decoded, are lost.
    pub fn into_inner(self) -> (s: S)
        ensures
            s == self.connection(),
    {
        self.stream.into_inner().into_inner().into_inner()
    }

    /// Rebuilds the stream so that each message carries its length before
    /// it. Both buffers start empty again: the mode is to be chosen before
    /// any data is exchanged.
    pub fn for_async(self) -> (s: AsyncProstStream<S, R, W, AsyncDestination>)
        ensures
            s.connection() == self.connection(),
            s.fresh(),
    {
        AsyncProstStream::over(AsyncProstWriter::from(self.into_inner()).for_async())
    }

    /// Rebuilds the stream so that each message carries a packed length
    /// word before it. Both buffers start empty again.
    pub fn for_async_framed(self) -> (s: AsyncProstStream<S, R, W, AsyncFrameDestination>)
        ensures
            s.connection() == self.connection(),
            s.fresh(),
    {
        AsyncProstStream::over(AsyncProstWriter::from(self.into_inner()).for_async_framed())
    }

    /// Rebuilds the stream so that messages carry no prefix. Both buffers
    /// start empty again.
    pub fn for_sync(self) -> (s: AsyncProstStream<S, R, W, SyncDestination>)
        ensures
            s.connection() == self.connection(),
            s.fresh(),
    {
        AsyncProstStream::from(self.into_inner())
    }

    /// The bytes received and not yet decoded.
    pub fn buffer(&self) -> (b: &[u8])
        ensures
            b@ == self.unread(),
    {
        self.stream.buffer()
    }

    /// Takes in what a read from the connection delivered: see
    /// `ReadBuffer::fill`. The write side stays as it is.
    pub fn fill(&mut self, chunk: &[u8]) -> (r: Result<FillResult, Error>)
        ensures
            r == end_or_more(old(self).unread(), chunk@),
            final(self).unread() == if r is Ok {
                old(self).unread() + chunk@
            } else {
                old(self).unread()
            },
            final(self).capacity() == if r is Ok {
                grown(old(self).capacity(), old(self).unread().len() + chunk@.len())
            } else {
                old(self).capacity()
            },
            final(self).connection() == old(self).connection(),
            final(self).queued() == old(self).queued(),
            final(self).cursor() == old(self).cursor(),
    {
        self.stream.fill(chunk)
    }

    /// The bytes that the next write hands to the connection.
    pub fn pending(&self) -> (p: &[u8])
        ensures
            self.cursor() <= self.queued().len(),
            p@ == self.unsent(),
    {
        self.stream.get_ref().get_ref().pending()
    }

    /// The connection together with the bytes to write to it next.
    pub fn write_parts(&mut self) -> (parts: (&mut S, &[u8]))
        ensures
            *parts.0 == old(self).connection(),
            parts.1@ == old(self).unsent(),
            final(self).connection() == *final(parts.0),
            final(self).unread() == old(self).unread(),
            final(self).capacity() == old(self).capacity(),
            final(self).queued() == old(self).queued(),
            final(self).cursor() == old(self).cursor(),
    {
        self.stream.get_mut().get_mut().write_parts()
    }

    /// Records that the connection accepted the first `n` pending bytes.
    pub fn advance(&mut self, n: usize)
        requires
            n <= old(self).unsent().len(),
        ensures
            final(self).connection() == old(self).connection(),
            final(self).unread() == old(self).unread(),
            final(self).capacity() == old(self).capacity(),
            final(self).queued() == old(self).queued(),
            final(self).cursor() == old(self).cursor() + n,
            final(self).unsent() == old(self).unsent().skip(n as int),
    {
        self.stream.get_mut().get_mut().advance(n)
    }

    /// Decides what a flush does next: see `WriteBuffer::flush_step`. The
    /// read side stays as it is.
    pub fn flush_step(&mut self) -> (step: FlushStep)
        ensures
            final(self).connection() == old(self).connection(),
            final(self).unread() == old(self).unread(),
            final(self).capacity() == old(self).capacity(),
            old(self).unsent().len() > 0 ==> step == FlushStep::Write && final(self).queued()
                == old(self).queued() && final(self).cursor() == old(self).cursor(),
            old(self).unsent().len() == 0 ==> step == FlushStep::Flush && final(self).queued()
                == Seq::<u8>::empty() && final(self).cursor() == 0,
    {
        self.stream.get_mut().get_mut().flush_step()
    }

    /// Detaches both buffers, the write cursor with its buffer, so that
    /// each can go on with its half of the connection. The stream is left
    /// with empty buffers and keeps the connection.
    pub fn split_buffers(&mut self) -> (buffers: (ReadBuffer, WriteBuffer))
        ensures
            buffers.0.bytes() == old(self).unread(),
            buffers.0.capacity() == old(self).capacity(),
            buffers.1.bytes() == old(self).queued(),
            buffers.1.cursor() == old(self).cursor(),
            final(self).connection() == old(self).connection(),
            final(self).unread() == Seq::<u8>::empty(),
            final(self).capacity() == old(self).capacity(),
            final(self).queued() == Seq::<u8>::empty(),
            final(self).cursor() == 0,
    {
        let unread = self.stream.split_buffer();
        let queued = self.stream.get_mut().get_mut().split_buffer();
        (unread, queued)
    }
}

impl<S, R: Message, W> AsyncProstStream<S, R, W, AsyncDestination> {
    /// Decides what the read side does next: see the reader's `poll_step`.
    /// The write side stays as it is.
    pub fn poll_step(&mut self) -> (step: ReadStep<R>)
        ensures
            final(self).connection() == old(self).connection(),
            final(self).queued() == old(self).queued(),
            final(self).cursor() == old(self).cursor(),
            final(self).capacity() == if complete(old(self).unread(), false) || needed(
                old(self).unread(),
                false,
            ) > isize::MAX {
                old(self).capacity()
            } else {
                grown(old(self).capacity(), needed(old(self).unread(), false))
            },
            complete(old(self).unread(), false) ==> step == ReadStep::Item(
                decoded::<R>(first_payload(old(self).unread(), false)),
            ) && final(self).unread() == after_first(old(self).unread(), false),
            !complete(old(self).unread(), false) ==> final(self).unread() == old(self).unread(),
            !complete(old(self).unread(), false) && needed(old(self).unread(), false) > isize::MAX
                ==> step == ReadStep::<R>::Item(Err(Error::TooLarge)),
            !complete(old(self).unread(), false) && needed(old(self).unread(), false)
                <= isize::MAX ==> step == (ReadStep::<R>::Fill {
                max: (final(self).capacity() - old(self).unread().len()) as usize,
            }),
    {
        self.stream.poll_step()
    }
}

impl<S, R: Framed, W> AsyncProstStream<S, R, W, AsyncFrameDestination> {
    /// Decides what the read side does next: see the reader's `poll_step`
    /// for packed length words. The write side stays as it is.
    pub fn poll_step(&mut self) -> (step: ReadStep<R>)
        ensures
            final(self).connection() == old(self).connection(),
            final(self).queued() == old(self).queued(),
            final(self).cursor() == old(self).cursor(),
            final(self).capacity() == if complete(old(self).unread(), true) || needed(
                old(self).unread(),
                true,
            ) > isize::MAX {
                old(self).capacity()
            } else {
                grown(old(self).capacity(), needed(old(self).unread(), true))
            },
            complete(old(self).unread(), true) ==> final(self).unread() == after_first(
                old(self).unread(),
                true,
            ),
            complete(old(self).unread(), true) ==> (step matches ReadStep::Item(r) && is_decoding(
                r,
                first_payload(old(self).unread(), true),
                header_len(be_u32(old(self).unread())),
            )),
            !complete(old(self).unread(), true) ==> final(self).unread() == old(self).unread(),
            !complete(old(self).unread(), true) && needed(old(self).unread(), true) > isize::MAX
                ==> step == ReadStep::<R>::Item(Err(Error::TooLarge)),
            !complete(old(self).unread(), true) && needed(old(self).unread(), true) <= isize::MAX
                ==> step == (ReadStep::<R>::Fill {
                max: (final(self).capacity() - old(self).unread().len()) as usize,
            }),
    {
        self.stream.poll_step()
    }
}

impl<S, R, W: Message> AsyncProstStream<S, R, W, AsyncDestination> {
    /// Serializes `item` behind what is queued already: see the writer's
    /// `append`. The connection and the read side are not touched.
    pub fn start_send(&mut self, item: W) -> (r: Result<(), Error>)
        ensures
            r is Ok <==> <AsyncProstWriter<S, W, AsyncDestination> as ProstWriterFor<W>>::accepts(&item),
            r is Ok ==> final(self).queued() == old(self).queued() + <AsyncProstWriter<
                S,
                W,
                AsyncDestination,
            > as ProstWriterFor<W>>::framed(&item),
            r is Err ==> final(self).queued() == old(self).queued(),
            r is Err ==> r == Err::<(), Error>(Error::TooLarge),
            final(self).connection() == old(self).connection(),
            final(self).cursor() == old(self).cursor(),
            final(self).unread() == old(self).unread(),
            final(self).capacity() == old(self).capacity(),
    {
        self.stream.get_mut().get_mut().append(item)
    }
}

impl<S, R, W: Message> AsyncProstStream<S, R, W, SyncDestination> {
    /// Serializes `item` behind what is queued already: see the writer's
    /// `append`. The connection and the read side are not touched.
    pub fn start_send(&mut self, item: W) -> (r: Result<(), Error>)
        ensures
            r is Ok <==> <AsyncProstWriter<S, W, SyncDestination> as ProstWriterFor<W>>::accepts(&item),
            r is Ok ==> final(self).queued() == old(self).queued() + <AsyncProstWriter<
                S,
                W,
                SyncDestination,
            > as ProstWriterFor<W>>::framed(&item),
            r is Err ==> final(self).queued() == old(self).queued(),
            final(self).connection() == old(self).connection(),
            final(self).cursor() == old(self).cursor(),
            final(self).unread() == old(self).unread(),
            final(self).capacity() == old(self).capacity(),
    {
        self.stream.get_mut().get_mut().append(item)
    }
}

impl<S, R, W: Framed> AsyncProstStream<S, R, W, AsyncFrameDestination> {
    /// Serializes `item` behind what is queued already: see the writer's
    /// `append`. The connection and the read side are not touched.
    pub fn start_send(&mut self, item: W) -> (r: Result<(), Error>)
        ensures
            r is Ok <==> <AsyncProstWriter<S, W, AsyncFrameDestination> as ProstWriterFor<W>>::accepts(&item),
            r is Ok ==> final(self).queued() == old(self).queued() + <AsyncProstWriter<
                S,
                W,
                AsyncFrameDestination,
            > as ProstWriterFor<W>>::framed(&item),
            r is Err ==> final(self).queued() == old(self).queued(),
            item.encodable() && r is Err ==> r == Err::<(), Error>(Error::TooLarge),
            final(self).connection() == old(self).connection(),
            final(self).cursor() == old(self).cursor(),
            final(self).unread() == old(self).unread(),
            final(self).capacity() == old(self).capacity(),
    {
        self.stream.get_mut().get_mut().append(item)
    }
}

impl<S, R, W, D> AsyncProstStream<S, R, W, D> {
    /// Splits the stream into a reader and a writer over the two halves
    /// that `split` makes of the connection. The reader goes on with the
    /// unread bytes, the writer with the queued bytes and the cursor; the
    /// stream itself is left with empty buffers.
    pub fn split_with<'a, RH, WH, F>(&'a mut self, split: F) -> (halves: (
        AsyncProstReader<RH, R, D>,
        AsyncProstWriter<WH, W, D>,
    )) where F: FnOnce(&'a mut S) -> (RH, WH)
        requires
            forall|s: &'a mut S| call_requires(split, (s,)),
        ensures
            halves.0.buffered() == old(self).unread(),
            halves.0.capacity() == old(self).capacity(),
            halves.1.buffered() == old(self).queued(),
            halves.1.cursor() == old(self).cursor(),
            final(self).unread() == Seq::<u8>::empty(),
            final(self).capacity() == old(self).capacity(),
            final(self).queued() == Seq::<u8>::empty(),
            final(self).cursor() == 0,
            exists|connection: &'a mut S|
                *connection == old(self).connection() && #[trigger] call_ensures(
                    split,
                    (connection,),
                    (halves.0.connection(), halves.1.connection()),
                ),
    {
        let buffers = self.split_buffers();
        let (read_half, write_half) = split(self.get_mut());
        with_halves(buffers, read_half, write_half)
    }
}

/// Attaches the buffers of a stream to the two halves of its connection.
/// The reader goes on with exactly the unread bytes, the writer with
/// exactly the queued bytes and the cursor: with `split_buffers` before
/// it, no byte is lost, doubled or moved.
pub fn with_halves<RH, WH, R, W, D>(
    buffers: (ReadBuffer, WriteBuffer),
    read_half: RH,
    write_half: WH,
) -> (halves: (AsyncProstReader<RH, R, D>, AsyncProstWriter<WH, W, D>))
    ensures
        halves.0.connection() == read_half,
        halves.0.buffered() == buffers.0.bytes(),
        halves.0.capacity() == buffers.0.capacity(),
        halves.1.connection() == write_half,
        halves.1.buffered() == buffers.1.bytes(),
        halves.1.cursor() == buffers.1.cursor(),
{
    let (unread, queued) = buffers;
    (AsyncProstReader::with_buffer(read_half, unread), AsyncProstWriter::with_buffer(write_half, queued))
}

/// Splitting changes nothing that either side does afterwards. Whatever
/// chunks arrive, the read half yields the messages that the stream would
/// have yielded and is left with the same unread bytes; the write half has
/// the same bytes to send, from the same place on.
pub proof fn lemma_split_integrity<S, R, W, D, RH, WH>(
    before: AsyncProstStream<S, R, W, D>,
    buffers: (ReadBuffer, WriteBuffer),
    halves: (AsyncProstReader<RH, R, D>, AsyncProstWriter<WH, W, D>),
    chunks: Seq<Seq<u8>>,
    packed: bool,
)
    requires
        buffers.0.bytes() == before.unread(),
        buffers.1.bytes() == before.queued(),
        buffers.1.cursor() == before.cursor(),
        halves.0.buffered() == buffers.0.bytes(),
        halves.1.buffered() == buffers.1.bytes(),
        halves.1.cursor() == buffers.1.cursor(),
    ensures
        yielded(halves.0.buffered(), chunks, packed) == yielded(before.unread(), chunks, packed),
        unread(halves.0.buffered(), chunks, packed) == unread(before.unread(), chunks, packed),
        halves.1.unsent() == before.unsent(),
        halves.1.buffered() == before.queued(),
{
}

impl<S, R, W> FromSpecImpl<S> for AsyncProstStream<S, R, W, SyncDestination> {
    open spec fn obeys_from_spec() -> bool {
        false
    }

    open spec fn from_spec(stream: S) -> Self {
        arbitrary()
    }
}

impl<S, R, W> From<S> for AsyncProstStream<S, R, W, SyncDestination> {
    fn from(stream: S) -> (s: Self)
        ensures
            s.connection() == stream,
            s.fresh(),
    {
        Self::over(AsyncProstWriter::from(stream))
    }
}

impl<S: Default, R, W> Default for AsyncProstStream<S, R, W, SyncDestination> {
    fn default() -> (s: Self)
        ensures
            call_ensures(S::default, (), s.connection()),
            s.fresh(),
    {
        Self::from(S::default())
    }
}

} // verus!
