[package]
name = "pngme"
version = "0.1.0"
edition = "2021"
publish = false

[dependencies]
crc = "3"
clap = { version = "3", features = ["derive"] }
log = "0.4"
pretty_env_logger = "0.5"
thiserror = "1"
