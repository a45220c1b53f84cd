//! An incremental UTF-8 decoder: bytes go in one at a time, and a character
//! comes out as soon as the last byte of its encoding has arrived.
//!
//! The decoder never buffers input and never fails for good: a byte that
//! cannot continue the stream is reported, the sequence in flight is dropped,
//! and decoding resumes with the next byte.
//!
//! ```text
//! let mut parser = Utf8Parser::new();
//! parser.push(0xC3)   // Ok(None)
//! parser.push(0xA9)   // Ok(Some('é'))
//! parser.push(0xF0)   // Ok(None)
//! parser.push(b'a')   // Err(UnexpectedStartByte(b'a')), and the decoder is fresh again
//! parser.push(b'a')   // Ok(Some('a'))
//! ```
//!
//! - [`byte`] classifies single bytes.
//! - [`parser`] holds the decoder and the state machine it runs.
//! - [`stream`] says what a run of pushes returns, and what holds of every
//!   push and of every run.
//! - [`round_trip`] proves that an encoded string comes back as it was.
//! - [`conformance`] proves that the decoder takes exactly the valid UTF-8.

pub mod byte;
pub mod conformance;
pub mod error;
pub mod parser;
pub mod round_trip;
pub mod stream;

pub use byte::{ParsedByte, Utf8ByteType};
pub use error::Utf8ParserError;
pub use parser::{State, Utf8Parser};
