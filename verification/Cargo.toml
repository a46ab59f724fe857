[package]
name = "nbkit"
version = "0.1.0"
edition = "2021"
publish = false

[dependencies]
semver = "0.9"
serde = { version = "1", features = ["derive"] }
serde_derive = "1"
toml = "0.5"
clap = "2"
reqwest = { version = "0.11", default-features = false, features = ["blocking"] }
sha2 = "0.9"
walkdir = "2"
