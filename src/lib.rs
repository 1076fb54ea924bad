//! Codec for a small UDP protocol that discovers and commands networked lights:
//! colour unit conversions, request framing and reply decoding.
pub mod wire;
pub mod request;
pub mod colour;
pub mod convert;
pub mod messages;
pub mod response;
pub mod network;
