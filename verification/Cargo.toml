[package]
name = "meta_mcp"
version = "0.1.0"
edition = "2021"
publish = false

[dependencies]
uuid = { version = "1", features = ["v4"] }
sha2 = "0.10"
base64 = "0.22"
url = "2"
serde = { version = "1", features = ["derive"] }
serde_json = { version = "1", features = ["preserve_order"] }
anyhow = "1"
tokio = { version = "1", features = ["full"] }
axum = "0.7"
futures = "0.3"
tokio-stream = "0.1"
reqwest = { version = "0.12", features = ["json", "stream"] }
