//! Length-prefixed messages over a byte channel.
//!
//! A byte channel hands over one byte at a time and knows no message
//! boundaries. This crate turns it into a sequence of self-delimiting
//! messages: each message is a decimal length, a newline, and exactly that
//! many bytes of body. Around that core stand the raw transfers it is built
//! on (a fixed number of bytes, bytes up to a sentinel) and a pair of
//! helpers for lines of text.
//!
//! The channel's two ends are explicit values, [`InputTape`] and
//! [`OutputTape`], held in memory. A program that talks to a blocking host
//! drives [`Scan`] and [`FrameReader`] byte by byte instead, and empties an
//! [`OutputTape`] into the host when a write is done.
//!
//! The modules follow the layers: [`tape`] is the channel, [`transfer`] the
//! raw transfers, [`text`] the line helpers, [`decimal`] and [`frame`] the
//! wire format, [`codec`] the messages that carry encoded values, and
//! [`intake`] the readers that take one byte at a time.

pub mod codec;
pub mod decimal;
pub mod error;
pub mod frame;
pub mod intake;
pub mod tape;
pub mod text;
pub mod transfer;
pub mod utf8;

pub use error::Error;
pub use intake::{FrameReader, Scan};
pub use tape::{InputTape, OutputTape};
