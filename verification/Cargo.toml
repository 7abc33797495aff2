[package]
name = "hermes_native"
version = "0.1.0"
edition = "2021"
publish = false

[dependencies]
dirs = "*"
napi = { version = "2", features = ["serde-json"] }
napi-derive = "2"
rusqlite = "*"
serde = { version = "1", features = ["derive"] }
serde_json = "1"
serde_yaml = "*"
