[package]
name = "rs_blockchain"
version = "0.1.0"
edition = "2021"
publish = false

[dependencies]
anyhow = "1"
base58 = "0.2"
clap = { version = "4", features = ["derive"] }
env_logger = "0.11"
hex = "0.4"
log = "0.4"
p256 = { version = "0.13", features = ["ecdsa", "std"] }
rand_core = { version = "0.6", features = ["getrandom"] }
ripemd = "0.1"
sha2 = "0.10"
sled = "0.34"
