[package]
name = "turn_rs"
version = "0.1.0"
edition = "2021"
publish = false

[dependencies]
ahash = "*"
anyhow = "*"
bytes = "*"
faster-stun = "*"
log = "*"
parking_lot = "*"
serde = { version = "*", features = ["derive"] }
