[package]
name = "coffee"
version = "0.1.0"
edition = "2021"
publish = false

[dependencies]
chrono = "0.4"
serde = { version = "1", features = ["derive"] }
serde_json = "1"
serde_yaml = "0.9"
git2 = "0.18"
clightningrpc-conf = "0.0.3"
clightningrpc-common = "=0.3.0-beta.4"
