[package]
name = "media_vault"
version = "0.1.0"
edition = "2021"
publish = false

[dependencies]
blake3 = "1"
uuid = { version = "1", features = ["v4"] }
percent-encoding = "2"
mime_guess = "2"
base64 = "0.22"
serde = { version = "1", features = ["derive"] }
serde_json = "1"
rusqlite = { version = "*", features = ["bundled"] }
log = "0.4"
flexi_logger = "*"
arboard = { version = "3", default-features = false }
