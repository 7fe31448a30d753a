[package]
name = "mimofan_core"
version = "0.1.0"
edition = "2021"
publish = false

[dependencies]
regex = "=1.13.1"
serde_json = "=1.0.154"
serde = { version = "=1.0.229", features = ["derive"] }
uuid = { version = "=1.29.0", features = ["v4"] }
toml = "=0.8.23"
chrono = "0.4"
sha2 = "0.10"
wait-timeout = "0.2"
