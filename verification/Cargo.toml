[package]
name = "toml2json"
version = "0.1.0"
edition = "2021"
publish = false

[dependencies]
toml = { version = "0.5", features = ["preserve_order"] }
serde_json = "1"
clap = { version = "4", features = ["derive"] }
