//! Parsing, validation and serialization of HTTP/0.9, HTTP/1.0 and HTTP/1.1
//! request and response messages, together with a bounded stream reader that
//! extracts exactly one message (headers plus a length-delimited body) from a
//! sequential byte source.

/// Lexical value types: versions, methods, status codes, headers, bodies.
pub mod obj;

/// Packet structures, builders and the parse/render engines.
pub mod packet;

/// Reading and collecting packets from sequential byte sources.
pub mod reader;

pub use obj::{Body, Header, Method, StatusCode, StatusCodeInt, Version};
pub use packet::PacketErr;

/// Character-sequence model of the wire text and verified helpers over it.
pub mod text;
