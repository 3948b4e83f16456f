[package]
name = "evmcore"
version = "0.1.0"
edition = "2021"
publish = false

[dependencies]
ethnum = "1"
sha3 = "0.10"
hex = "0.4"
colored = "*"
