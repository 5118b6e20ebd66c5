[package]
name = "mded_core"
version = "0.1.0"
edition = "2021"
publish = false

[dependencies]
base64 = "*"
chrono = "*"
dirs = "*"
global-hotkey = "*"
serde_json = "*"
uuid = { version = "*", features = ["v4"] }
