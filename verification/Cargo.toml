[package]
name = "realtime"
version = "0.1.0"
edition = "2021"
publish = false

[dependencies]
base64 = "0.22"
serde = { version = "1", features = ["derive"] }
serde_json = "1"
uuid = { version = "1", features = ["v4", "v5", "serde"] }
thiserror = "2"
axum = "0.8"
tokio = { version = "1", features = ["rt", "macros"] }
tracing = "0.1"
