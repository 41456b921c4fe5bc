[package]
name = "swap_chains"
version = "0.1.0"
edition = "2021"
publish = false

[dependencies]
surfman = "*"
sparkle = "*"
euclid = "*"
surfman-chains-api = "*"
