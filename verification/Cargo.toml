[package]
name = "zonesync"
version = "0.1.0"
edition = "2021"
publish = false

[dependencies]
config = "*"
env_logger = "*"
log = "*"
reqwest = { version = "*", default-features = false, features = ["blocking", "json"] }
serde = { version = "*", features = ["derive"] }
serde_json = "*"
