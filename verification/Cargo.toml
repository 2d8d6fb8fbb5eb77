[package]
name = "chorus"
version = "0.1.0"
edition = "2021"
publish = false

[dependencies]
bitcoin_hashes = "*"
secp256k1 = "*"
mime-sniffer = "*"
textnonce = "*"
dashmap = "*"
serde_json = "*"
