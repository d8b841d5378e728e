//! The buffered writer: messages are serialized into a buffer, which is then
//! drained to the connection in as many writes as the connection needs.

use crate::error::Error;
use crate::frame::Framed;
use crate::framing::{frame, payload_len};
use crate::message::Message;
use crate::wire::{encode_len, u32_be, LEN_SIZE};
use std::marker::PhantomData;
use vstd::prelude::*;
use vstd::slice::slice_subrange;
use vstd::std_specs::convert::FromSpecImpl;

verus! {

/// Marks a writer whose messages carry a length prefix, as a reader of
/// length-prefixed messages expects.
#[derive(Debug)]
pub struct AsyncDestination;

/// Marks a writer whose messages carry a packed length word, which
/// announces a header and a body.
#[derive(Debug)]
pub struct AsyncFrameDestination;

/// Marks a writer whose messages carry no prefix: each payload delimits
/// itself.
#[derive(Debug)]
pub struct SyncDestination;

/// The serialized messages that wait for the connection, one after the
/// other, and a cursor over them: the bytes before the cursor have been
/// handed to the connection already.
#[derive(Debug)]
pub struct WriteBuffer {
    buffer: Vec<u8>,
    written: usize,
}

impl WriteBuffer {
    #[verifier::type_invariant]
    spec fn cursor_in_buffer(self) -> bool {
        self.written <= self.buffer@.len()
    }

    /// All bytes in the buffer, those before the cursor included.
    pub closed spec fn bytes(&self) -> Seq<u8> {
        self.buffer@
    }

    /// How many leading bytes the connection has accepted.
    pub closed spec fn cursor(&self) -> nat {
        self.written as nat
    }

    /// An empty buffer with the cursor at its start.
    pub fn new() -> (b: Self)
        ensures
            b.bytes() == Seq::<u8>::empty(),
            b.cursor() == 0,
    {
        WriteBuffer { buffer: Vec::new(), written: 0 }
    }

    /// Moves the buffer and the cursor out and leaves an empty buffer.
    fn take(&mut self) -> (parts: (Vec<u8>, usize))
        ensures
            parts.0@ == old(self).bytes(),
            parts.1 == old(self).cursor(),
            parts.1 <= parts.0@.len(),
            final(self).bytes() == Seq::<u8>::empty(),
            final(self).cursor() == 0,
    {
        proof {
            use_type_invariant(&*self);
        }
        let mut taken = WriteBuffer::new();
        std::mem::swap(self, &mut taken);
        let WriteBuffer { buffer, written } = taken;
        (buffer, written)
    }

    /// The number of bytes in the buffer, those before the cursor included.
    pub fn len(&self) -> (n: usize)
        ensures
            n == self.bytes().len(),
            self.cursor() <= n,
    {
        proof {
            use_type_invariant(self);
        }
        self.buffer.len()
    }

    /// How many leading bytes the connection has accepted.
    pub fn written(&self) -> (n: usize)
        ensures
            n == self.cursor(),
            n <= self.bytes().len(),
    {
        proof {
            use_type_invariant(self);
        }
        self.written
    }

    /// The bytes behind the cursor: what the next write hands to the
    /// connection.
    pub fn pending(&self) -> (p: &[u8])
        ensures
            self.cursor() <= self.bytes().len(),
            p@ == self.bytes().skip(self.cursor() as int),
    {
        proof {
            use_type_invariant(self);
        }
        slice_subrange(self.buffer.as_slice(), self.written, self.buffer.len())
    }

    /// Appends a length prefix that announces `n` bytes.
    pub fn put_len(&mut self, n: u32)
        ensures
            final(self).bytes() == old(self).bytes() + u32_be(n),
            final(self).cursor() == old(self).cursor(),
    {
        let (mut buffer, written) = self.take();
        let prefix = encode_len(n);
        buffer.extend_from_slice(prefix.as_slice());
        *self = WriteBuffer { buffer, written };
    }

    /// Appends the encoding of `item`.
    pub fn put_message<T: Message>(&mut self, item: &T)
        ensures
            final(self).bytes() == old(self).bytes() + item.wire(),
            final(self).cursor() == old(self).cursor(),
    {
        let (mut buffer, written) = self.take();
        item.encode(&mut buffer);
        *self = WriteBuffer { buffer, written };
    }

    /// Appends the header part and the body part of `item`, if it can be
    /// encoded.
    pub fn put_framed<T: Framed>(&mut self, item: &T) -> (r: Result<(), Error>)
        ensures
            r is Ok <==> item.encodable(),
            r is Ok ==> final(self).bytes() == old(self).bytes() + item.wire(),
            r is Err ==> final(self).bytes() == old(self).bytes(),
            final(self).cursor() == old(self).cursor(),
    {
        let (mut buffer, written) = self.take();
        let r = item.encode(&mut buffer);
        *self = WriteBuffer { buffer, written };
        r
    }

    /// Cuts the buffer back to its first `len` bytes.
    pub fn truncate(&mut self, len: usize)
        requires
            old(self).cursor() <= len <= old(self).bytes().len(),
        ensures
            final(self).bytes() == old(self).bytes().take(len as int),
            final(self).cursor() == old(self).cursor(),
    {
        let (mut buffer, written) = self.take();
        buffer.truncate(len);
        *self = WriteBuffer { buffer, written };
    }

    /// Moves the cursor over the `n` bytes that the connection accepted.
    pub fn advance(&mut self, n: usize)
        requires
            old(self).cursor() + n <= old(self).bytes().len(),
        ensures
            final(self).bytes() == old(self).bytes(),
            final(self).cursor() == old(self).cursor() + n,
    {
        proof {
            use_type_invariant(&*self);
            assert(self.buffer.len() == self.buffer@.len());
        }
        self.written = self.written + n;
    }

    /// Decides what a flush does next. While bytes wait behind the cursor,
    /// they are to be written and nothing changes; once the cursor has
    /// reached the end, the buffer is cleared, the cursor goes back to the
    /// start, and the connection itself is to be flushed.
    pub fn flush_step(&mut self) -> (step: FlushStep)
        ensures
            old(self).cursor() <= old(self).bytes().len(),
            old(self).cursor() < old(self).bytes().len() ==> step == FlushStep::Write
                && *final(self) == *old(self),
            old(self).cursor() == old(self).bytes().len() ==> step == FlushStep::Flush
                && final(self).bytes() == Seq::<u8>::empty() && final(self).cursor() == 0,
    {
        proof {
            use_type_invariant(&*self);
        }
        if self.written != self.buffer.len() {
            FlushStep::Write
        } else {
            let (mut buffer, _) = self.take();
            buffer.clear();
            *self = WriteBuffer { buffer, written: 0 };
            FlushStep::Flush
        }
    }
}

/// What a flush has to do next with the connection.
#[derive(Debug, Clone, Copy, PartialEq, Eq, Structural)]
pub enum FlushStep {
    /// Write the pending bytes, then report how many were accepted.
    Write,
    /// Everything was written: flush the connection; the flush is complete
    /// when that is.
    Flush,
}

/// Buffers serialized messages for a connection `W`.
#[derive(Debug)]
pub struct AsyncProstWriter<W, T, D> {
    writer: W,
    state: WriteBuffer,
    from: PhantomData<T>,
    dest: PhantomData<D>,
}

impl<W, T, D> AsyncProstWriter<W, T, D> {
    /// The connection that this writer drains to.
    pub closed spec fn connection(&self) -> W {
        self.writer
    }

    /// All bytes in the buffer, those already handed to the connection
    /// included.
    pub closed spec fn buffered(&self) -> Seq<u8> {
        self.state.bytes()
    }

    /// How many leading bytes of the buffer the connection has accepted.
    pub closed spec fn cursor(&self) -> nat {
        self.state.cursor()
    }

    /// The bytes that still wait for the connection.
    pub open spec fn unsent(&self) -> Seq<u8> {
        self.buffered().skip(self.cursor() as int)
    }

    /// Creates a writer with an empty buffer.
    pub fn new(writer: W) -> (w: Self)
        ensures
            w.connection() == writer,
            w.buffered() == Seq::<u8>::empty(),
            w.cursor() == 0,
    {
        Self { writer, state: WriteBuffer::new(), from: PhantomData, dest: PhantomData }
    }

    /// The connection, by reference.
    pub fn get_ref(&self) -> (w: &W)
        ensures
            *w == self.connection(),
    {
        &self.writer
    }

    /// The connection, by mutable reference. The buffer stays as it is.
    pub fn get_mut(&mut self) -> (w: &mut W)
        ensures
            *w == old(self).connection(),
            final(self).connection() == *final(w),
            final(self).buffered() == old(self).buffered(),
            final(self).cursor() == old(self).cursor(),
    {
        &mut self.writer
    }

    /// Gives the connection back. Bytes that were buffered and not yet sent
    /// are lost.
    pub fn into_inner(self) -> (w: W)
        ensures
            w == self.connection(),
    {
        self.writer
    }

    /// The same writer under another wire mode: connection, buffer and
    /// cursor are kept.
    pub fn make_for<D2>(self) -> (w: AsyncProstWriter<W, T, D2>)
        ensures
            w.connection() == self.connection(),
            w.buffered() == self.buffered(),
            w.cursor() == self.cursor(),
    {
        AsyncProstWriter {
            writer: self.writer,
            state: self.state,
            from: self.from,
            dest: PhantomData,
        }
    }

    /// Creates a writer that starts with the bytes and the cursor of
    /// `state`.
    pub fn with_buffer(writer: W, state: WriteBuffer) -> (w: Self)
        ensures
            w.connection() == writer,
            w.buffered() == state.bytes(),
            w.cursor() == state.cursor(),
    {
        Self { writer, state, from: PhantomData, dest: PhantomData }
    }

    /// Detaches the buffer with its cursor, so that they can go on with
    /// another connection. This writer is left with an empty buffer.
    pub fn split_buffer(&mut self) -> (taken: WriteBuffer)
        ensures
            taken.bytes() == old(self).buffered(),
            taken.cursor() == old(self).cursor(),
            taken.cursor() <= taken.bytes().len(),
            final(self).buffered() == Seq::<u8>::empty(),
            final(self).cursor() == 0,
            final(self).connection() == old(self).connection(),
    {
        let _ = self.state.len();
        let mut taken = WriteBuffer::new();
        std::mem::swap(&mut self.state, &mut taken);
        taken
    }

    /// The bytes that the next write hands to the connection.
    pub fn pending(&self) -> (p: &[u8])
        ensures
            self.cursor() <= self.buffered().len(),
            p@ == self.unsent(),
    {
        self.state.pending()
    }

    /// The connection together with the bytes to write to it next.
    pub fn write_parts(&mut self) -> (parts: (&mut W, &[u8]))
        ensures
            *parts.0 == old(self).connection(),
            parts.1@ == old(self).unsent(),
            final(self).connection() == *final(parts.0),
            final(self).buffered() == old(self).buffered(),
            final(self).cursor() == old(self).cursor(),
    {
        (&mut self.writer, self.state.pending())
    }

    /// Records that the connection accepted the first `n` pending bytes.
    pub fn advance(&mut self, n: usize)
        requires
            n <= old(self).unsent().len(),
        ensures
            final(self).connection() == old(self).connection(),
            final(self).buffered() == old(self).buffered(),
            final(self).cursor() == old(self).cursor() + n,
            final(self).unsent() == old(self).unsent().skip(n as int),
    {
        let _ = self.state.len();
        self.state.advance(n);
    }

    /// Decides what a flush does next: see `WriteBuffer::flush_step`.
    pub fn flush_step(&mut self) -> (step: FlushStep)
        ensures
            final(self).connection() == old(self).connection(),
            old(self).unsent().len() > 0 ==> step == FlushStep::Write && final(self).buffered()
                == old(self).buffered() && final(self).cursor() == old(self).cursor(),
            old(self).unsent().len() == 0 ==> step == FlushStep::Flush && final(self).buffered()
                == Seq::<u8>::empty() && final(self).cursor() == 0,
    {
        self.state.flush_step()
    }
}

/// What a writer does with a message that it accepts, by wire mode.
pub trait ProstWriterFor<T> {
    /// All bytes in the writer's buffer.
    spec fn queue(&self) -> Seq<u8>;

    /// Whether the writer can frame `item`.
    spec fn accepts(item: &T) -> bool;

    /// The bytes that stand for `item` on the wire, framing included.
    spec fn framed(item: &T) -> Seq<u8>;

    /// Serializes `item` behind what is buffered already. The connection is
    /// not touched. A message that cannot be framed leaves the buffer as it
    /// was.
    fn append(&mut self, item: T) -> (r: Result<(), Error>)
        ensures
            r is Ok <==> Self::accepts(&item),
            r is Ok ==> final(self).queue() == old(self).queue() + Self::framed(&item),
            r is Err ==> final(self).queue() == old(self).queue(),
    ;
}

impl<W, T: Message> ProstWriterFor<T> for AsyncProstWriter<W, T, AsyncDestination> {
    open spec fn queue(&self) -> Seq<u8> {
        self.buffered()
    }

    open spec fn accepts(item: &T) -> bool {
        item.wire().len() <= u32::MAX
    }

    open spec fn framed(item: &T) -> Seq<u8> {
        frame(item.wire())
    }

    fn append(&mut self, item: T) -> (r: Result<(), Error>)
        ensures
            r is Err ==> r == Err::<(), Error>(Error::TooLarge),
            final(self).connection() == old(self).connection(),
            final(self).cursor() == old(self).cursor(),
    {
        let size = item.encoded_len();
        if size > u32::MAX as usize {
            return Err(Error::TooLarge);
        }
        self.state.put_len(size as u32);
        self.state.put_message(&item);
        Ok(())
    }
}

impl<W, T: Message> ProstWriterFor<T> for AsyncProstWriter<W, T, SyncDestination> {
    open spec fn queue(&self) -> Seq<u8> {
        self.buffered()
    }

    open spec fn accepts(item: &T) -> bool {
        true
    }

    open spec fn framed(item: &T) -> Seq<u8> {
        item.wire()
    }

    fn append(&mut self, item: T) -> (r: Result<(), Error>)
        ensures
            final(self).connection() == old(self).connection(),
            final(self).cursor() == old(self).cursor(),
    {
        self.state.put_message(&item);
        Ok(())
    }
}

impl<W, T: Framed> ProstWriterFor<T> for AsyncProstWriter<W, T, AsyncFrameDestination> {
    open spec fn queue(&self) -> Seq<u8> {
        self.buffered()
    }

    open spec fn accepts(item: &T) -> bool {
        item.encodable() && item.wire().len() == payload_len(item.length_word(), true)
    }

    open spec fn framed(item: &T) -> Seq<u8> {
        u32_be(item.length_word()) + item.wire()
    }

    fn append(&mut self, item: T) -> (r: Result<(), Error>)
        ensures
            item.encodable() && r is Err ==> r == Err::<(), Error>(Error::TooLarge),
            final(self).connection() == old(self).connection(),
            final(self).cursor() == old(self).cursor(),
    {
        let start = self.state.len();
        let word = item.encoded_len();
        self.state.put_len(word);
        let announced = (word / 0x100_0000) as usize + (word % 0x100_0000) as usize;
        let r = match self.state.put_framed(&item) {
            Ok(()) => {
                if self.state.len() - start - LEN_SIZE == announced {
                    Ok(())
                } else {
                    Err(Error::TooLarge)
                }
            },
            Err(e) => Err(e),
        };
        if r.is_err() {
            self.state.truncate(start);
            assert(self.state.bytes() =~= old(self).state.bytes());
        }
        r
    }
}

impl<W, T> AsyncProstWriter<W, T, SyncDestination> {
    /// Makes this writer put each message's length before the message.
    pub fn for_async(self) -> (w: AsyncProstWriter<W, T, AsyncDestination>)
        ensures
            w.connection() == self.connection(),
            w.buffered() == self.buffered(),
            w.cursor() == self.cursor(),
    {
        self.make_for()
    }

    /// Makes this writer put a packed length word before each message.
    pub fn for_async_framed(self) -> (w: AsyncProstWriter<W, T, AsyncFrameDestination>)
        ensures
            w.connection() == self.connection(),
            w.buffered() == self.buffered(),
            w.cursor() == self.cursor(),
    {
        self.make_for()
    }
}

impl<W, T> FromSpecImpl<W> for AsyncProstWriter<W, T, SyncDestination> {
    open spec fn obeys_from_spec() -> bool {
        false
    }

    open spec fn from_spec(writer: W) -> Self {
        arbitrary()
    }
}

impl<W, T> From<W> for AsyncProstWriter<W, T, SyncDestination> {
    fn from(writer: W) -> (w: Self)
        ensures
            w.connection() == writer,
            w.buffered() == Seq::<u8>::empty(),
            w.cursor() == 0,
    {
        Self::new(writer)
    }
}

impl<W: Default, T> Default for AsyncProstWriter<W, T, SyncDestination> {
    fn default() -> (w: Self)
        ensures
            call_ensures(W::default, (), w.connection()),
            w.buffered() == Seq::<u8>::empty(),
            w.cursor() == 0,
    {
        Self::new(W::default())
    }
}

} // verus!
