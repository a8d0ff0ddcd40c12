[package]
name = "aetheris-app"
version = "0.1.0"
edition = "2021"
publish = false

[dependencies]
anyhow = "1"
dirs = "*"
gettext-rs = { version = "*", features = ["gettext-system"] }
serde = { version = "1", features = ["derive"] }
serde_json = "1"
