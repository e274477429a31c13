[package]
name = "muzn_dm"
version = "0.1.0"
edition = "2021"
publish = false

[dependencies]
url = "=2.5.8"
percent-encoding = "=2.3.2"
uuid = { version = "=1.29.0", features = ["v4"] }
reqwest = { version = "=0.12.28", default-features = false, features = ["stream", "rustls-tls", "http2", "charset", "system-proxy"] }
rusqlite = { version = "=0.41.1", features = ["bundled"] }
serde = { version = "=1.0.229", features = ["derive"] }
serde_json = "=1.0.154"
thiserror = "=2.0.21"
tokio = { version = "=1.54.1", features = ["full"] }
tokio-util = "=0.7.20"
futures-util = "=0.3.34"
