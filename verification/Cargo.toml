[package]
name = "plonkit"
version = "0.1.0"
edition = "2021"
publish = false

[dependencies]
num-bigint = "*"
num-traits = "*"
hex = "*"
serde = { version = "*", features = ["derive"] }
serde_json = "*"
byteorder = "*"
itertools = "*"
log = "*"
env_logger = "*"
clap = { version = "*", features = ["derive"] }
rand = "*"
hex-literal = "*"
bellman_ce = "*"
pairing_ce = "*"
