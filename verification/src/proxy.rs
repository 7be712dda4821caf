//! The proxy's own rules: what it does with each packet of a connection.

pub mod connection;
pub mod error;
pub mod relay;
pub mod session;
pub mod utils;
