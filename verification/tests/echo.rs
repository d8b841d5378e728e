use async_prost::{
    with_halves, AsyncDestination, AsyncFrameDestination, AsyncProstReader, AsyncProstStream,
    AsyncProstWriter, DecodeError, Error, FillResult, FlushStep, Frame, Framed, Message,
    ProstWriterFor, ReadStep, ShallDecodeBody,
};
use bytes::{Buf, BufMut, Bytes};
use either::Either;
use prost::encoding::{skip_field, DecodeContext, WireType};
use std::cell::RefCell;
use std::collections::VecDeque;
use std::rc::Rc;

/// One direction of a connection in memory.
type Pipe = Rc<RefCell<VecDeque<u8>>>;

/// One end of a connection in memory: what arrives, and what leaves.
#[derive(Clone, Default)]
struct End {
    incoming: Pipe,
    outgoing: Pipe,
}

/// A connection in memory, by its two ends.
fn connection() -> (End, End) {
    let a = End::default();
    let b = End { incoming: a.outgoing.clone(), outgoing: a.incoming.clone() };
    (a, b)
}

impl End {
    /// Reads at most `max` bytes; none where none have arrived.
    fn read(&self, max: usize) -> Vec<u8> {
        let mut incoming = self.incoming.borrow_mut();
        let n = max.min(incoming.len());
        incoming.drain(..n).collect()
    }

    /// Accepts at most 1000 bytes of `bytes` and says how many.
    fn write(&self, bytes: &[u8]) -> usize {
        let n = bytes.len().min(1000);
        self.outgoing.borrow_mut().extend(bytes[..n].iter());
        n
    }
}

// A message of two byte strings.

#[derive(Clone, PartialEq, Debug, Default)]
struct Event {
    id: Bytes,
    data: Bytes,
}

impl prost::Message for Event {
    fn encode_raw(&self, buf: &mut impl BufMut) {
        if !self.id.is_empty() {
            prost::encoding::bytes::encode(1, &self.id, buf);
        }
        if !self.data.is_empty() {
            prost::encoding::bytes::encode(2, &self.data, buf);
        }
    }

    fn merge_field(
        &mut self,
        tag: u32,
        wire_type: WireType,
        buf: &mut impl Buf,
        ctx: DecodeContext,
    ) -> Result<(), prost::DecodeError> {
        match tag {
            1 => prost::encoding::bytes::merge(wire_type, &mut self.id, buf, ctx),
            2 => prost::encoding::bytes::merge(wire_type, &mut self.data, buf, ctx),
            _ => skip_field(wire_type, tag, buf, ctx),
        }
    }

    fn encoded_len(&self) -> usize {
        let id = if self.id.is_empty() { 0 } else { prost::encoding::bytes::encoded_len(1, &self.id) };
        let data =
            if self.data.is_empty() { 0 } else { prost::encoding::bytes::encoded_len(2, &self.data) };
        id + data
    }

    fn clear(&mut self) {
        self.id.clear();
        self.data.clear();
    }
}

impl Message for Event {
    fn encoded_len(&self) -> usize {
        prost::Message::encoded_len(self)
    }

    fn encode(&self, buf: &mut Vec<u8>) {
        prost::Message::encode(self, buf).unwrap()
    }

    fn decode(bytes: &[u8]) -> Result<Self, DecodeError> {
        <Event as prost::Message>::decode(bytes).map_err(|_| DecodeError)
    }
}

// A request and its response: a tag and a byte string.

#[derive(Clone, PartialEq, Debug, Default)]
struct Tagged {
    tag: u64,
    data: Bytes,
}

impl prost::Message for Tagged {
    fn encode_raw(&self, buf: &mut impl BufMut) {
        if self.tag != 0 {
            prost::encoding::uint64::encode(1, &self.tag, buf);
        }
        if !self.data.is_empty() {
            prost::encoding::bytes::encode(2, &self.data, buf);
        }
    }

    fn merge_field(
        &mut self,
        tag: u32,
        wire_type: WireType,
        buf: &mut impl Buf,
        ctx: DecodeContext,
    ) -> Result<(), prost::DecodeError> {
        match tag {
            1 => prost::encoding::uint64::merge(wire_type, &mut self.tag, buf, ctx),
            2 => prost::encoding::bytes::merge(wire_type, &mut self.data, buf, ctx),
            _ => skip_field(wire_type, tag, buf, ctx),
        }
    }

    fn encoded_len(&self) -> usize {
        let tag = if self.tag == 0 { 0 } else { prost::encoding::uint64::encoded_len(1, &self.tag) };
        let data =
            if self.data.is_empty() { 0 } else { prost::encoding::bytes::encoded_len(2, &self.data) };
        tag + data
    }

    fn clear(&mut self) {
        self.tag = 0;
        self.data.clear();
    }
}

impl Message for Tagged {
    fn encoded_len(&self) -> usize {
        prost::Message::encoded_len(self)
    }

    fn encode(&self, buf: &mut Vec<u8>) {
        prost::Message::encode(self, buf).unwrap()
    }

    fn decode(bytes: &[u8]) -> Result<Self, DecodeError> {
        <Tagged as prost::Message>::decode(bytes).map_err(|_| DecodeError)
    }
}

impl Tagged {
    fn new(data: Bytes) -> Self {
        Tagged { tag: 0, data }
    }

    fn check(&self, expected: Bytes) {
        assert_eq!(self.data, expected);
    }
}

// The two parts of a frame: a header with a tag, a body with a byte string.

#[derive(Clone, PartialEq, Debug, Default)]
struct Header {
    tag: u64,
}

impl prost::Message for Header {
    fn encode_raw(&self, buf: &mut impl BufMut) {
        if self.tag != 0 {
            prost::encoding::uint64::encode(1, &self.tag, buf);
        }
    }

    fn merge_field(
        &mut self,
        tag: u32,
        wire_type: WireType,
        buf: &mut impl Buf,
        ctx: DecodeContext,
    ) -> Result<(), prost::DecodeError> {
        match tag {
            1 => prost::encoding::uint64::merge(wire_type, &mut self.tag, buf, ctx),
            _ => skip_field(wire_type, tag, buf, ctx),
        }
    }

    fn encoded_len(&self) -> usize {
        if self.tag == 0 {
            0
        } else {
            prost::encoding::uint64::encoded_len(1, &self.tag)
        }
    }

    fn clear(&mut self) {
        self.tag = 0;
    }
}

impl Message for Header {
    fn encoded_len(&self) -> usize {
        prost::Message::encoded_len(self)
    }

    fn encode(&self, buf: &mut Vec<u8>) {
        prost::Message::encode(self, buf).unwrap()
    }

    fn decode(bytes: &[u8]) -> Result<Self, DecodeError> {
        <Header as prost::Message>::decode(bytes).map_err(|_| DecodeError)
    }
}

impl ShallDecodeBody for Header {
    fn shall_decode_body(&self) -> bool {
        self.tag % 2 == 0
    }
}

#[derive(Clone, PartialEq, Debug, Default)]
struct Body {
    data: Bytes,
}

impl prost::Message for Body {
    fn encode_raw(&self, buf: &mut impl BufMut) {
        if !self.data.is_empty() {
            prost::encoding::bytes::encode(1, &self.data, buf);
        }
    }

    fn merge_field(
        &mut self,
        tag: u32,
        wire_type: WireType,
        buf: &mut impl Buf,
        ctx: DecodeContext,
    ) -> Result<(), prost::DecodeError> {
        match tag {
            1 => prost::encoding::bytes::merge(wire_type, &mut self.data, buf, ctx),
            _ => skip_field(wire_type, tag, buf, ctx),
        }
    }

    fn encoded_len(&self) -> usize {
        if self.data.is_empty() {
            0
        } else {
            prost::encoding::bytes::encoded_len(1, &self.data)
        }
    }

    fn clear(&mut self) {
        self.data.clear();
    }
}

impl Message for Body {
    fn encoded_len(&self) -> usize {
        prost::Message::encoded_len(self)
    }

    fn encode(&self, buf: &mut Vec<u8>) {
        prost::Message::encode(self, buf).unwrap()
    }

    fn decode(bytes: &[u8]) -> Result<Self, DecodeError> {
        <Body as prost::Message>::decode(bytes).map_err(|_| DecodeError)
    }
}

impl Body {
    fn new(data: Bytes) -> Self {
        Body { data }
    }
}

/// A frame of a request or of its response.
#[derive(Debug, Default)]
struct Envelope(Frame<Header, Body>);

impl Envelope {
    fn new(data: Bytes) -> Self {
        Envelope(Frame { header: Some(Header { tag: 0 }), body: Some(Either::Right(Body { data })) })
    }

    fn set_tag(&mut self, tag: usize) {
        if let Some(header) = self.0.header.as_mut() {
            header.tag = tag as u64;
        }
    }

    /// The tag of the header; a frame without header bytes has tag 0.
    fn get_tag(&self) -> usize {
        self.0.header.as_ref().map_or(0, |header| header.tag as usize)
    }

    fn check_data(&self, expected: Bytes) {
        if let Either::Right(v) = self.0.body.as_ref().unwrap() {
            assert_eq!(v.data, expected);
        } else {
            assert!(false, "Should not come here")
        }
    }

    fn check_body(&self, expected: Bytes) {
        if let Either::Left(v) = self.0.body.as_ref().unwrap() {
            let body = Body::new(expected);
            let mut buf: Vec<u8> = Vec::new();
            prost::Message::encode(&body, &mut buf).unwrap();
            assert_eq!(v.as_slice(), buf.as_slice());
        } else {
            assert!(false, "Should not come here")
        }
    }
}

impl Framed for Envelope {
    fn decode(buf: &[u8], header_len: usize) -> Result<Self, Error> {
        let frame = Frame::decode(buf, header_len)?;
        Ok(Self(frame))
    }

    fn encoded_len(&self) -> u32 {
        self.0.encoded_len()
    }

    fn encode(&self, buf: &mut Vec<u8>) -> Result<(), Error> {
        self.0.encode(buf)
    }
}

/// Writes out all that `stream` has queued.
fn flush<R, W, D>(stream: &mut AsyncProstStream<End, R, W, D>) {
    loop {
        match stream.flush_step() {
            FlushStep::Write => {
                let (end, pending) = stream.write_parts();
                let n = end.write(pending);
                stream.advance(n);
            }
            FlushStep::Flush => return,
        }
    }
}

/// Writes out all that `writer` has queued.
fn flush_half<W, D>(writer: &mut AsyncProstWriter<End, W, D>) {
    loop {
        match writer.flush_step() {
            FlushStep::Write => {
                let (end, pending) = writer.write_parts();
                let n = end.write(pending);
                writer.advance(n);
            }
            FlushStep::Flush => return,
        }
    }
}

/// The next message of a stream with plain length words; `None` at the end
/// of what has arrived.
fn next<R: Message, W>(stream: &mut AsyncProstStream<End, R, W, AsyncDestination>) -> Option<Result<R, Error>> {
    loop {
        match stream.poll_step() {
            ReadStep::Item(item) => return Some(item),
            ReadStep::Fill { max } => {
                let chunk = stream.get_mut().read(max);
                match stream.fill(&chunk) {
                    Ok(FillResult::Filled) => {}
                    Ok(FillResult::Eof) => return None,
                    Err(e) => return Some(Err(e)),
                }
            }
        }
    }
}

/// The same for a read half.
fn next_half<R: Message>(reader: &mut AsyncProstReader<End, R, AsyncDestination>) -> Option<Result<R, Error>> {
    loop {
        match reader.poll_step() {
            ReadStep::Item(item) => return Some(item),
            ReadStep::Fill { max } => {
                let chunk = reader.get_mut().read(max);
                match reader.fill(&chunk) {
                    Ok(FillResult::Filled) => {}
                    Ok(FillResult::Eof) => return None,
                    Err(e) => return Some(Err(e)),
                }
            }
        }
    }
}

/// The same for a stream with packed length words.
fn next_framed<R: Framed, W>(
    stream: &mut AsyncProstStream<End, R, W, AsyncFrameDestination>,
) -> Option<Result<R, Error>> {
    loop {
        match stream.poll_step() {
            ReadStep::Item(item) => return Some(item),
            ReadStep::Fill { max } => {
                let chunk = stream.get_mut().read(max);
                match stream.fill(&chunk) {
                    Ok(FillResult::Filled) => {}
                    Ok(FillResult::Eof) => return None,
                    Err(e) => return Some(Err(e)),
                }
            }
        }
    }
}

/// A server that sends back what it receives, its stream split in two
/// halves: all that has arrived is read on one and written on the other.
fn echo_split<T: Message>(server: &mut AsyncProstStream<End, T, T, AsyncDestination>) {
    let buffers = server.split_buffers();
    let end = server.get_ref().clone();
    let (mut r, mut w): (AsyncProstReader<End, T, AsyncDestination>, AsyncProstWriter<End, T, AsyncDestination>) =
        with_halves(buffers, end.clone(), end);
    while let Some(item) = next_half(&mut r) {
        w.append(item.unwrap()).unwrap();
    }
    flush_half(&mut w);
    assert!(r.buffer().is_empty());
}

#[test]
fn echo_message_should() {
    let (client_end, server_end) = connection();
    let mut server = AsyncProstStream::<_, Event, Event, _>::from(server_end).for_async();
    let mut client = AsyncProstStream::<_, Event, Event, _>::from(client_end).for_async();

    let event = Event { id: Bytes::from_static(b"1234"), data: Bytes::from_static(b"hello world") };
    client.start_send(event.clone()).unwrap();
    flush(&mut client);
    echo_split(&mut server);
    assert_eq!(next(&mut client).unwrap().unwrap(), event);

    let event = Event { id: Bytes::from_static(b"1235"), data: Bytes::from_static(b"goodbye world") };
    client.start_send(event.clone()).unwrap();
    flush(&mut client);
    echo_split(&mut server);
    assert_eq!(next(&mut client).unwrap().unwrap(), event);
    drop(client);
}

#[test]
fn echo_lots_of_messages_should_work() {
    let (client_end, server_end) = connection();
    let mut server = AsyncProstStream::<_, Event, Event, _>::from(server_end).for_async();

    let n = 81920usize;
    let mut client = AsyncProstStream::<_, Event, Event, _>::from(client_end).for_async();
    for i in 0..n {
        client
            .start_send(Event { id: Bytes::from(i.to_string()), data: Bytes::from_static(b"goodbye world") })
            .unwrap();
        if i % 100 == 99 {
            flush(&mut client);
            echo_split(&mut server);
        }
    }
    flush(&mut client);
    echo_split(&mut server);

    let mut at = 0usize;
    while let Some(got) = next(&mut client).transpose().unwrap() {
        assert_eq!(Bytes::from(at.to_string()), got.id);
        at += 1;
    }
    assert_eq!(at, n);
}

/// Three requests on their way at once, each answered by its echo; the
/// answers are told apart by their tags.
fn three_calls() {
    let (client_end, server_end) = connection();
    let mut tx = AsyncProstStream::<_, Tagged, Tagged, _>::from(client_end).for_async();
    let mut rx = AsyncProstStream::<_, Tagged, Tagged, _>::from(server_end).for_async();

    let b1 = Bytes::from_static(b"hello");
    let b2 = Bytes::from_static(b"world");
    let b3 = Bytes::from_static(b"tyr");
    for (tag, data) in [b1.clone(), b2.clone(), b3.clone()].into_iter().enumerate() {
        let mut request = Tagged::new(data);
        request.tag = tag as u64;
        tx.start_send(request).unwrap();
    }
    flush(&mut tx);

    while let Some(request) = next(&mut rx) {
        rx.start_send(request.unwrap()).unwrap();
    }
    flush(&mut rx);

    let mut responses = vec![None, None, None];
    while let Some(response) = next(&mut tx) {
        let response = response.unwrap();
        let tag = response.tag as usize;
        responses[tag] = Some(response);
    }
    responses[0].take().unwrap().check(b1);
    responses[1].take().unwrap().check(b2);
    responses[2].take().unwrap().check(b3);
}

#[test]
fn simple_tokio_tower_should_work() {
    three_calls();
}

#[test]
fn integration_tokio_tower_should_work() {
    three_calls();
}

#[test]
fn framed_tokio_tower_should_work() {
    let (client_end, server_end) = connection();
    let mut tx = AsyncProstStream::<_, Envelope, Envelope, _>::from(client_end).for_async_framed();
    let mut rx = AsyncProstStream::<_, Envelope, Envelope, _>::from(server_end).for_async_framed();

    let b1 = Bytes::from_static(b"hello");
    let b2 = Bytes::from_static(b"world");
    let b3 = Bytes::from_static(b"tyr");
    for (tag, data) in [b1.clone(), b2.clone(), b3.clone()].into_iter().enumerate() {
        let mut request = Envelope::new(data);
        request.set_tag(tag);
        tx.start_send(request).unwrap();
    }
    flush(&mut tx);

    while let Some(request) = next_framed(&mut rx) {
        rx.start_send(request.unwrap()).unwrap();
    }
    flush(&mut rx);

    let mut responses = vec![None, None, None];
    while let Some(response) = next_framed(&mut tx) {
        let response = response.unwrap();
        let tag = response.get_tag();
        responses[tag] = Some(response);
    }
    responses[0].take().unwrap().check_data(b1);
    responses[1].take().unwrap().check_body(b2);
    responses[2].take().unwrap().check_data(b3);
}
