[package]
name = "ramshield"
version = "0.1.0"
edition = "2021"
publish = false

[dependencies]
crc32fast = "=1.5.4"
lz4_flex = "=0.11.6"
hmac = "=0.12.1"
sha2 = "=0.10.9"
sha3 = "=0.10.9"
hex = "=0.4.3"
ahash = "=0.8.12"
dashmap = "=6.2.1"
serde = { version = "=1.0.229", features = ["derive"] }
serde_json = "=1.0.154"
toml = "=0.8.23"
anyhow = "=1.0.104"
thiserror = "=1.0.69"
uuid = { version = "=1.29.0", features = ["v4"] }
crossbeam-channel = "=0.5.17"
arc-swap = "=1.9.3"
argon2 = { version = "0.5", features = ["std"] }
