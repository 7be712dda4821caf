//! Packets, their framing on the wire, and the messages the proxy reads.

pub mod model;
pub mod packet;
pub mod zlib;
