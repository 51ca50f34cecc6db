[package]
name = "vector_shard"
version = "0.1.0"
edition = "2021"
publish = false

[dependencies]
semver = "1"
uuid = { version = "1", features = ["v4"] }
serde = { version = "1", features = ["derive"] }
serde_json = "1"
config = "0.13"
env_logger = "0.10"
log = "0.4"
tar = "0.4"

[dev-dependencies]
rand = "0.8"
