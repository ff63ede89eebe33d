[package]
name = "pool"
version = "0.1.0"
edition = "2021"
publish = false

[dependencies]
anyhow = "1"
binary_sv2 = "=5.0.1"
bitcoin = "=0.32.102"
bitcoin-capnp-types = "=0.1.2"
capnp = "=0.25.6"
capnp-rpc = "=0.25.1"
codec_sv2 = { version = "=5.0.0", features = ["noise_sv2"] }
common_messages_sv2 = "=7.2.0"
framing_sv2 = "=6.0.1"
hex = "=0.4.3"
mining_sv2 = "=8.0.0"
noise_sv2 = "=1.4.2"
reqwest = { version = "0.12", default-features = false, features = ["json"] }
rusqlite = { version = "*", features = ["bundled"] }
secp256k1 = { version = "=0.28.2", features = ["rand-std"] }
serde = { version = "1", features = ["derive"] }
serde_json = "1"
template_distribution_sv2 = "5.1"
tokio = { version = "1", features = ["full"] }
tokio-util = { version = "0.7", features = ["compat"] }
tracing = "0.1"
tracing-subscriber = "0.3"
