[package]
name = "subway_sign"
version = "0.1.0"
edition = "2021"
publish = false

[dependencies]
regex = "1"
serde = { version = "1", features = ["derive"] }
serde_json = "1"
tokio = { version = "1", features = ["full"] }
tokio-util = "0.7"
tracing = "0.1"
tracing-subscriber = { version = "0.3", features = ["env-filter"] }
arc-swap = "1"
axum = "0.8"
chrono = "0.4"
prost = "0.13"
reqwest = { version = "0.12", default-features = false, features = ["gzip", "rustls-tls"] }
rust-embed = "8"
