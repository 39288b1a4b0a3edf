[package]
name = "mitos_packages_toolkit"
version = "0.1.0"
edition = "2021"
publish = false

[dependencies]
semver = { version = "1", features = ["serde"] }
serde = { version = "1", features = ["derive"] }
serde_json = "1"
toml = "0.8"
hex = "0.4"
thiserror = "1"
walkdir = "2"
clap = { version = "4", features = ["derive"] }
