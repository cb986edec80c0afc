[package]
name = "rustirc2"
version = "0.1.0"
edition = "2021"
publish = false

[dependencies]
chrono = "*"
tokio = { version = "*", features = ["full"] }
clap = "2"
env_logger = "*"
log = "*"
