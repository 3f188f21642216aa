//! A verified client core for a streaming generative-content API.
//!
//! The heart of the crate is the streaming response pipeline: raw bytes
//! arriving over a server-sent-event (SSE) transport are reassembled into
//! frames, classified, and decoded into typed response chunks, with layered
//! failure classification and explicit termination states.  The request
//! builder, the SSE frame decoder, the JSON codec and the event classifier
//! are all pure logic with proved contracts; the transport itself (HTTP,
//! sockets) stays outside the library and hands bytes in as plain values.

pub mod codec;
pub mod datatypes;
pub mod error;
pub mod json;
pub mod parse;
pub mod request;
pub mod sse;
pub mod stream;
pub mod text;
