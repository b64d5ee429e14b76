[package]
name = "particle_node"
version = "0.1.0"
edition = "2021"
publish = false

[dependencies]
base64 = "0.13"
blake3 = { version = "1", default-features = false, features = ["pure"] }
uuid = { version = "0.8", features = ["v4"] }
serde = { version = "1", features = ["derive"] }
serde_json = "1"
toml = "0.5"
chrono = "0.4"
futures = "0.3"
async-std = "1"
thiserror = "1"
parking_lot = "0.11"
log = "0.4"
eyre = "0.6"
