[package]
name = "probabilistic_pubkey"
version = "0.1.0"
edition = "2021"
publish = false

[dependencies]
num-bigint = "0.4"
num-integer = "0.1"
num-traits = "0.2"
rand = "0.8"

[dev-dependencies]
primal = "0.3"
