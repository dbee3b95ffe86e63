[package]
name = "assets"
version = "0.1.0"
edition = "2021"
publish = false

[dependencies]
ahash = "=0.7.8"
xxhash-rust = { version = "=0.8.19", features = ["xxh3"] }
crossbeam-channel = "=0.5.17"
bevy_app = "=0.5.0"
bevy_ecs = "=0.5.0"
bevy_reflect = "=0.5.0"
anyhow = "=1.0.104"
thiserror = "=1.0.69"
async-std = "=1.13.2"
futures = "=0.3.34"
serde = { version = "=1.0.229", features = ["derive"] }
serde_json = "=1.0.154"
