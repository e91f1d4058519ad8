[package]
name = "meros"
version = "0.1.0"
edition = "2021"
publish = false

[dependencies]
blake3 = "=1.8.7"
crc32fast = "=1.5.2"
ecies-ed25519 = "=0.5.1"
ed25519-dalek = "=1.0.1"
rand = "=0.7.3"
sled = "=0.34.7"
