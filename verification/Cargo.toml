[package]
name = "libzeropool"
version = "0.1.0"
edition = "2021"
publish = false

[dependencies]
fawkes-crypto = "4"
fawkes-crypto-keccak256 = "*"
chacha20poly1305 = "0.8"
sha3 = "0.9"
serde_json = "1"
lazy_static = "1"
clap = { version = "4", features = ["derive"] }
async-trait = "0.1"
