//! Client side of a length-prefixed, optionally compressed packet protocol:
//! the wire codec, the roster of known participants and the session engine.
//!
//! The library computes and decides; it never touches a socket or a console.
//! Its caller reads bytes and lines, hands them in, and carries out what
//! comes back.

pub mod error;
pub mod bytes;
pub mod text;
pub mod varint;
pub mod cursor;
pub mod frame;
pub mod zlib;
pub mod packet;
pub mod protocol;
pub mod roster;
pub mod json;
pub mod chat;
pub mod status;
pub mod session;
