[package]
name = "coin_flip"
version = "0.1.0"
edition = "2021"
publish = false

[dependencies]
getrandom = "=0.2.17"
near-sdk = { version = "=5.29.1", features = ["non-contract-usage"] }
rand = "=0.8.8"
schemars = "=0.8.22"
