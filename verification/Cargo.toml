[package]
name = "tap_core"
version = "0.1.0"
edition = "2021"
publish = false

[dependencies]
ethers-core = "2"
ethers-signers = "2"
rand = "0.8"
serde = { version = "1", features = ["derive"] }
anyhow = "1"
jsonrpsee = { version = "0.16", features = ["server", "http-client", "macros"] }
