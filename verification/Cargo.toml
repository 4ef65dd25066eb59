[package]
name = "anys_cid"
version = "0.1.0"
edition = "2021"
publish = false

[dependencies]
bs58 = "0.5"
bytes = "1"
bytes-varint = "1"
digest = "0.10"
hex = "0.4"
sha2 = "0.10"
thiserror = "1"
