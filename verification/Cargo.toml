[package]
name = "dumpling"
version = "0.1.0"
edition = "2021"
publish = false

[dependencies]
blake2 = "*"
bs58 = "*"
twox-hash = "*"
hex = "*"

[dev-dependencies]
parity-scale-codec = "*"
