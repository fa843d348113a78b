[package]
name = "pngme"
version = "0.1.0"
edition = "2021"
publish = false

[dependencies]
anyhow = "1"
chrono = "0.4"
clap = { version = "4", features = ["derive"] }
crc = "3"
env_logger = "0.11"
log = "0.4"
