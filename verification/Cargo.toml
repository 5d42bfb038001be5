[package]
name = "xiangqi_arbiter"
version = "0.1.0"
edition = "2021"
publish = false

[dependencies]
smol = "*"
log = "*"
env_logger = "*"
chrono = "*"
clap = { version = "*", features = ["derive"] }
