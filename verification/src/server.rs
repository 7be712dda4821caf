//! A small upstream server to try the proxy against: it answers a status
//! request and accepts a login.

pub mod error;
pub mod handshake;
pub mod login;
pub mod status;
