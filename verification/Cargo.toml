[package]
name = "abi_coder"
version = "0.1.0"
edition = "2021"
publish = false

[dependencies]
ethabi = "*"
hex = "0.4"
anyhow = "1"
neon = "*"
