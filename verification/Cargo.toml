[package]
name = "rurl"
version = "0.1.0"
edition = "2021"
publish = false

[dependencies]
anyhow = "1"
axum = "0.7"
clap = { version = "4", features = ["derive"] }
dashmap = "6"
futures = "0.3"
indicatif = "0.17"
md5 = "0.8"
parking_lot = "0.12"
reqwest = { version = "0.12", default-features = false, features = ["stream", "gzip", "brotli", "deflate", "socks", "rustls-tls"] }
serde = { version = "1", features = ["derive"] }
serde_json = "1"
sha1 = "0.11"
sha2 = "0.11"
tokio = { version = "1", features = ["full"] }
tracing = "0.1"
tracing-subscriber = { version = "0.3", features = ["env-filter"] }
uuid = { version = "1", features = ["v4", "serde"] }
