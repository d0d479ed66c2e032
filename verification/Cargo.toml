[package]
name = "kubesim"
version = "0.1.0"
edition = "2021"
publish = false

[dependencies]
rstar = "0.12"
serde = { version = "1", features = ["derive"] }
serde_yaml = "0.9"
histogram = "*"
