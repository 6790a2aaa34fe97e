[package]
name = "tiny_l1"
version = "0.1.0"
edition = "2021"
publish = false

[dependencies]
bincode = "1.3"
sha3 = "0.10"
clap = { version = "4", features = ["derive"] }
hex = "0.4"
log = "0.4"
env_logger = "0.11"
