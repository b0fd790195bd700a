[package]
name = "projson"
version = "0.1.0"
edition = "2021"
publish = false

[dependencies]
anyhow = "1"
clap = { version = "4", features = ["derive"] }
env_logger = "*"
log = "0.4"
once_cell = "1"
serde_json = { version = "1", features = ["preserve_order"] }
windows-projfs = "*"
