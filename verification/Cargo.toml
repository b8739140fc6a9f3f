[package]
name = "yamf_hash"
version = "0.1.0"
edition = "2021"

[dependencies]
blake3 = "*"

[dev-dependencies]
varu64 = "*"
