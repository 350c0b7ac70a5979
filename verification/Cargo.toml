[package]
name = "zitree"
version = "0.1.0"
edition = "2021"
publish = false

[dependencies]
toml = "0.8"
serde = { version = "1", features = ["derive"] }
humantime = "2"
fuzzy-matcher = "0.3"
zellij-tile = "0.44.1"
