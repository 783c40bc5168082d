[package]
name = "romhack"
version = "0.1.0"
edition = "2021"
publish = false

[dependencies]
dashmap = "=6.2.1"
serde = { version = "=1.0.229", features = ["derive"] }
serde_json = "=1.0.154"
rusqlite = { version = "=0.41.1", features = ["bundled"] }
uuid = { version = "=1.29.0", features = ["v4"] }
anyhow = "=1.0.104"
clap = { version = "=4.6.7", features = ["derive"] }
tokio = { version = "=1.54.1", features = ["full"] }
tracing = "=0.1.44"
tracing-subscriber = "=0.3.23"
rmcp = { version = "=3.8.0", features = ["server", "macros", "transport-io"] }
qdrant-client = { version = "=1.20.0", default-features = false }
fastembed = { version = "=7.5.0", default-features = false, features = ["onnx", "hf-hub-rustls-tls"] }
ort = { version = "=2.0.0-rc.15", default-features = false, features = ["load-dynamic"] }
