[package]
name = "ralume"
version = "0.1.0"
edition = "2021"
publish = false

[dependencies]
anyhow = "=1.0.104"
async-channel = "=2.5.0"
chrono = "=0.4.45"
reqwest = { version = "=0.12.28", default-features = false, features = ["multipart", "rustls-tls"] }
serde = { version = "=1.0.229", features = ["derive"] }
serde_json = "=1.0.154"
thiserror = "=2.0.21"
tokio = { version = "=1.54.1", features = ["rt", "time", "fs"] }
tracing = "=0.1.44"
