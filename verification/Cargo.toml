[package]
name = "intel_fw"
version = "0.1.0"
edition = "2021"
publish = false

[dependencies]
md5 = "*"
sha2 = "*"
num-bigint = "*"
crc = "*"
clap = { version = "*", features = ["derive"] }
env_logger = "*"
log = "*"
