[package]
name = "tsmux"
version = "0.1.0"
edition = "2021"
publish = false

[dependencies]
mpeg2ts = "*"
anyhow = "1"
clap = { version = "4", features = ["derive"] }
env_logger = "*"
log = "0.4"
less-avc = "*"
