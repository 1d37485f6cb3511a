[package]
name = "narwhal"
version = "0.1.0"
edition = "2021"
publish = false

[dependencies]
sha2 = "0.10"
libp2p = { version = "0.53", default-features = false, features = ["tokio", "tcp", "noise", "yamux", "kad", "identify", "request-response", "cbor", "macros", "ed25519"] }
tokio = { version = "1", features = ["full"] }
axum = { version = "0.7", features = ["macros"] }
serde = { version = "1", features = ["derive"] }
serde_json = "1"
log = "0.4"
env_logger = "0.11"
