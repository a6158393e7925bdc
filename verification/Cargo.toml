[package]
name = "karaoke_core"
version = "0.1.0"
edition = "2021"
publish = false

[dependencies]
uuid = { version = "*", features = ["v4"] }
tokio = { version = "*", features = ["full"] }
axum = "*"
serde = { version = "*", features = ["derive"] }
serde_json = "*"
async-channel = "*"
futures-util = "*"
tokio-stream = { version = "*", features = ["sync"] }
