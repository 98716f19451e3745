[package]
name = "syntaxis"
version = "0.1.0"
edition = "2021"
publish = false

[dependencies]
regex = "=1.13.1"
url = "=2.5.8"
serde = { version = "=1.0.229", features = ["derive"] }
serde_json = "=1.0.154"
base64 = "0.22"
uuid = { version = "1", features = ["v4", "v5"] }
similar = { version = "2", features = ["inline"] }
