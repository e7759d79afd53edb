[package]
name = "mdevctl"
version = "1.3.0"
edition = "2021"
publish = false

[dependencies]
anyhow = "1"
clap = { version = "4", features = ["derive"] }
env_logger = "0.10"
log = "0.4"
serde_json = "1"
uuid = { version = "1", features = ["v4"] }
