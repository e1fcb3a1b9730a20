[package]
name = "zosh"
version = "0.1.0"
edition = "2021"
publish = false

[dependencies]
blake3 = "=1.8.7"
blake2b_simd = "1"
ed25519-dalek = "=2.2.0"
bs58 = "=0.5.1"
hex = "=0.4.3"
serde = { version = "=1.0.229", features = ["derive"] }
serde_json = "=1.0.154"
postcard = { version = "=1.1.3", features = ["alloc"] }
anyhow = "=1.0.104"
tokio = { version = "=1.54.1", features = ["full"] }
axum = { version = "=0.8.9", features = ["ws"] }
tower-http = { version = "=0.6.11", features = ["cors"] }
tracing = "=0.1.44"
tracing-subscriber = { version = "=0.3.23", features = ["env-filter"] }
rusqlite = { version = "=0.41.1", features = ["bundled"] }
futures-util = "=0.3.34"
dirs = "=7.0.0"
