[package]
name = "oblivion"
version = "0.1.0"
edition = "2021"
publish = false

[dependencies]
ring = "0.17"
hkdf = "0.12"
sha2 = "0.10"
regex = "1"
tokio = { version = "1", features = ["full"] }
socket2 = "0.5"
anyhow = "1"
serde_json = "1"
futures = "0.3"
colored = "2"
chrono = "0.4"
