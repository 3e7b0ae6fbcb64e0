[package]
name = "clippin"
version = "0.1.0"
edition = "2021"
publish = false

[dependencies]
clap = { version = "4", features = ["derive"] }
env_logger = "*"
fs_extra = "1"
indicatif = "*"
log = "0.4"
