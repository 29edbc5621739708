[package]
name = "rust_blockchain"
version = "0.1.0"
edition = "2021"
publish = false

[dependencies]
ring = "0.16"
rust-crypto = "0.2"
bs58 = "0.4"
data-encoding = "2"
hex = "0.4"
serde = { version = "1", features = ["derive"] }
bincode = "1.3"
sled = "0.34"
structopt = "0.3"
env_logger = "0.10"
log = "0.4"
