//! Client-side core of a network-topology discovery protocol.
//!
//! Messages are JSON objects concatenated on a byte stream with no framing
//! other than brace balance.  This crate holds the verified core: the message
//! codec, the frame decoder that cuts the stream back into messages, and the
//! breadth-first discovery engine that decides which node to query next and
//! when the crawl is complete.  Transport, progress display and artifact
//! extraction live outside the library.

pub mod text;
pub mod messages;
pub mod codec;
pub mod frame;
pub mod frame_laws;
pub mod discover;
pub mod round_trip;
