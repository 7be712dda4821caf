//! The messages that the proxy interprets. All others pass as opaque
//! packets.

pub mod handshake;
pub mod login;

pub use handshake::{Handshake, HandshakeView, Intent};
pub use login::{Hello, HelloView, LoginCompression};
