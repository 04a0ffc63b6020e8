[package]
name = "blockchainlib"
version = "0.1.0"
edition = "2021"
publish = false

[dependencies]
crypto-hash = "*"
hex = "*"
