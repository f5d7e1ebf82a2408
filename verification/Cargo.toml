[package]
name = "skate_game"
version = "0.1.0"
edition = "2021"
publish = false

[dependencies]
indexmap = "*"
rand = "0.8"
serde = { version = "1", features = ["derive"] }
serde_yaml = "*"
telegram-bot = "*"
dropbox-sdk = "*"
futures = "0.3"
tokio = { version = "1", features = ["full"] }
