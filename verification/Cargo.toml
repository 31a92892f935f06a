[package]
name = "coin_node"
version = "0.1.0"
edition = "2021"
publish = false

[dependencies]
base64 = "0.21"
bincode = "1"
chrono = "0.4"
rand = "0.8"
rsa = "0.8"
rusqlite = { version = "0.31", features = ["bundled"] }
serde = { version = "1", features = ["derive"] }
serde_json = "1"
sha2 = "0.10"
