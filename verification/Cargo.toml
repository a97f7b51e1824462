[package]
name = "tagnetd"
version = "0.1.0"
edition = "2021"
publish = false

[dependencies]
base64 = "0.22"
blake3 = "1"
ed25519-dalek = "2"
futures-util = "0.3"
log = "0.4"
notify = "*"
rand = "0.8"
rmp-serde = "1"
rusqlite = { version = "*", features = ["bundled"] }
serde = { version = "1", features = ["derive"] }
serde_json = "1"
tokio = { version = "1", features = ["full"] }
tokio-tungstenite = "*"
tokio-util = "0.7"
uuid = { version = "1", features = ["v4"] }
walkdir = "2"
