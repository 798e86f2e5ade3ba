[package]
name = "impeccable_terminal"
version = "0.1.0"
edition = "2021"
publish = false

[dependencies]
regex = "1"
unicode-width = "*"
serde = { version = "1", features = ["derive"] }
serde_json = "1"
