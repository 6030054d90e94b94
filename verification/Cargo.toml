[package]
name = "centix_core"
version = "0.1.0"
edition = "2021"
publish = false

[dependencies]
sled = "0.34"
flate2 = "1"
infer = "*"
base64 = "0.13"
rand = "0.8"
chrono = "0.4"
serde = { version = "1", features = ["derive"] }
serde_json = "1"
