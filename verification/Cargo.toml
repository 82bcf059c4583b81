[package]
name = "keyforge"
version = "0.1.0"
edition = "2021"
publish = false

[dependencies]
mlua = { version = "0.10", features = ["lua54", "vendored", "send"] }
serde = { version = "1", features = ["derive"] }
serde_json = "1"
