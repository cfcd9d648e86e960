[package]
name = "tulip_core"
version = "0.1.0"
edition = "2021"
publish = false

[dependencies]
base64 = "*"
chrono = "*"
chrono-tz = "*"
html-escape = "*"
serde = { version = "*", features = ["derive"] }
serde_json = "*"
reqwest = { version = "*", features = ["blocking", "json"] }
dirs = "*"
