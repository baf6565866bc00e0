[package]
name = "divine_tools"
version = "0.1.0"
edition = "2021"
publish = false

[dependencies]
argh = "*"
serde = { version = "1", features = ["derive"] }
serde_json = "1"
