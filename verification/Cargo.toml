[package]
name = "aminos"
version = "0.1.0"
edition = "2021"
publish = false

[dependencies]
anyhow = "=1.0.104"
ring = "=0.17.14"
unicode-width = "=0.1.14"
serde = { version = "=1.0.229", features = ["derive"] }
serde_json = "=1.0.154"
serde_yaml = "=0.9.34"
toml = "=0.8.23"
ureq = { version = "=2.12.1", features = ["native-tls"] }
native-tls = "=0.2.18"
