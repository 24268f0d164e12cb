[package]
name = "bitwise"
version = "0.1.0"
edition = "2021"
publish = false

[dependencies]
num-bigint = "*"

[dev-dependencies]
rand = "0.7"
