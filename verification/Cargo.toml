[package]
name = "taggu"
version = "0.1.0"
edition = "2021"
publish = false

[dependencies]
rust_decimal = "=1.43.0"
globset = "=0.4.13"
regex = "=1.13.1"
itertools = "=0.15.0"
serde = { version = "=1.0.229", features = ["derive"] }
serde_json = "=1.0.154"
serde_yaml = "=0.9.34"
toml = "=1.1.8"
strum = { version = "=0.28.0", features = ["derive"] }
thiserror = "=2.0.21"
