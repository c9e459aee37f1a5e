//! Streaming UTF-8 decoding: bytes pulled one at a time from a source become
//! Unicode scalar values, with U+FFFD standing in for every malformed sequence.
pub mod decoder;
pub mod laws;
pub mod source;
pub mod utf8_step;

pub use decoder::{decode_all, Utf8Decoder};
pub use source::ByteSource;
pub use utf8_step::{feed, finish, DecodeState, Step, REPLACEMENT_CHARACTER};
