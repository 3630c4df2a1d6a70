//! A verified core for a line-oriented, length-framed event-socket control
//! protocol: an incremental wire codec, frame-to-event reassembly, a
//! multi-valued header model, and the single-in-flight connection engine
//! that demultiplexes command replies from asynchronous events.

pub mod api;
pub mod bytesutil;
pub mod codec;
pub mod command;
pub mod connection;
mod error;
pub mod event;
pub mod headers;

pub use command::Command;
pub use connection::ESLConnInner;
pub use event::Event;

pub use error::ESLError;
pub use error::ErrorKind;
