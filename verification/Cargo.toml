[package]
name = "bitdex"
version = "0.1.0"
edition = "2021"
publish = false

[dependencies]
ahash = "0.8"
arc-swap = "1"
axum = "0.8"
chrono = "0.4"
dashmap = "6"
flate2 = "1"
parking_lot = "0.12"
prometheus = "0.13"
rayon = "1"
reqwest = { version = "0.12", default-features = false, features = ["json"] }
roaring = "0.10"
serde = { version = "1", features = ["derive"] }
serde_json = "1"
serde_yaml = "0.9"
thiserror = "2"
tokio = { version = "1", features = ["full"] }
tokio-stream = { version = "0.1", features = ["sync"] }
toml = "0.8"
tower-http = { version = "0.6", features = ["cors"] }
tracing = "0.1"
