[package]
name = "processing_core"
version = "0.1.0"
edition = "2021"
publish = false

[dependencies]
serde_json = "*"
serde = { version = "*", features = ["derive"] }
thiserror = "*"
clap = { version = "*", features = ["derive"] }
env_logger = "*"
