[package]
name = "chat_relay"
version = "0.1.0"
edition = "2021"
publish = false

[dependencies]
chrono = "*"
serde_json = "*"
urlencoding = "*"
reqwest = { version = "*", default-features = false }
tokio = { version = "*", features = ["full"] }
clearscreen = "*"
