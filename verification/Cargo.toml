[package]
name = "file_cache"
version = "0.1.0"
edition = "2021"
publish = false

[dependencies]
serde = { version = "*", features = ["derive"] }
serde_json = "*"
thiserror = "*"
non-blank-string-rs = "*"
log = "*"
env_logger = "*"
fake = "*"
