//! Length-delimited framing of encoded messages over a byte stream.
//!
//! A writer serializes messages into a buffer and drains it to a connection
//! in as many writes as the connection needs; a reader collects what the
//! connection delivers, in chunks of any size, until a whole message is
//! there. Neither touches the connection: each decides what is to be done
//! with it next and takes in what came of that.

pub mod buf;
pub mod error;
pub mod frame;
pub mod framing;
pub mod message;
pub mod reader;
pub mod stream;
pub mod wire;
pub mod writer;

pub use crate::error::{DecodeError, Error};
pub use crate::frame::{Frame, Framed, ShallDecodeBody};
pub use crate::message::Message;
pub use crate::reader::{AsyncProstReader, Demand, FillResult, ReadBuffer, ReadStep};
pub use crate::stream::{with_halves, AsyncProstStream, InternalAsyncWriter};
pub use crate::writer::{
    AsyncDestination, AsyncFrameDestination, AsyncProstWriter, FlushStep, ProstWriterFor,
    SyncDestination, WriteBuffer,
};
