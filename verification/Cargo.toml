[package]
name = "manifest_updater"
version = "0.1.0"
edition = "2021"
publish = false

[dependencies]
serde_json = "*"
toml = "*"
clap = { version = "*", features = ["derive"] }
