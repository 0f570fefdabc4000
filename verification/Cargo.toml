[package]
name = "jack"
version = "0.1.0"
edition = "2021"
publish = false

[dependencies]
sha2 = "*"
rand = "*"
smolhttp = "*"
open = "*"
serde = { version = "1", features = ["derive"] }
serde_json = "1"
toml = "*"
