[package]
name = "sra_cipher"
version = "0.1.0"
edition = "2021"
publish = false

[dependencies]
num-bigint = { version = "0.4", features = ["rand"] }
num-integer = "0.1"
num-traits = "0.2"
num-prime = "0.4"
rand = "0.8"
