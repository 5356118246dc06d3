[package]
name = "ttl_cache"
version = "0.1.0"
edition = "2021"
publish = false

[dependencies]
chrono = "0.4"
serde = "1"
serde_json = "1"
tokio = { version = "1", default-features = false, features = ["sync"] }
tracing = "0.1"
