[package]
name = "evmstate"
version = "0.1.0"
edition = "2021"
publish = false

[dependencies]
anyhow = "1"
ethereum-types = "*"
evm = "*"
hex = "0.4"
