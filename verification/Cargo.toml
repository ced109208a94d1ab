[package]
name = "factotum_persistence"
version = "0.1.0"
edition = "2021"
publish = false

[dependencies]
base64 = "*"
consul = "*"

[dev-dependencies]
serde_json = "*"
