[package]
name = "minecraft_proxy"
version = "0.1.0"
edition = "2021"
publish = false

[dependencies]
flate2 = "1"
json = "0.12"
log = "0.4"
env_logger = "0.11"
clap = { version = "4", features = ["derive", "env"] }
syn = { version = "2", features = ["full"] }
quote = "1"
proc-macro2 = "1"
