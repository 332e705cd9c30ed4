//! A codec for the DNS wire message format: the fixed 12-byte header, the
//! length-prefixed label encoding of domain names, the question section, and
//! the compression-pointer form of answer records that a stub resolver's
//! client sees in replies.
//!
//! The codec is pure: it turns in-memory messages into byte vectors and byte
//! buffers back into messages. Sockets, prompts and display belong to the
//! caller.

pub mod answer;
pub mod errors;
pub mod header;
pub mod name;
pub mod packet;
pub mod question;
pub mod wire;
