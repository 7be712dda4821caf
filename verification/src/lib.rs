//! A transparent proxy core for the Minecraft Java-edition wire protocol:
//! the binary codec, the packet framer with its compression switch, and the
//! per-connection state machine, each stated over byte sequences and proved.

pub mod codec;
pub mod data;
pub mod derive;
pub mod proxy;
pub mod server;
