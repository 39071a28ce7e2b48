[package]
name = "rft"
version = "0.1.0"
edition = "2021"
publish = false

[dependencies]
sha3 = "*"
rand = "*"
clap = "*"
log = "*"
env_logger = "*"
