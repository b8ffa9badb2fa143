[package]
name = "grove"
version = "0.1.0"
edition = "2021"
publish = false

[dependencies]
anyhow = "1"
clap = { version = "4", features = ["derive"] }
serde = { version = "1", features = ["derive"] }
sha2 = "0.10"
toml = "0.8"
unicode-width = "0.2"
walkdir = "2"

[dev-dependencies]
tempfile = "3"
