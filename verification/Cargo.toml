[package]
name = "pallet_kitties"
version = "0.1.0"
edition = "2021"
publish = false

[dependencies]
sp-crypto-hashing = "*"
parity-scale-codec = "*"
