[package]
name = "kata"
version = "0.1.0"
edition = "2021"
publish = false

[dependencies]
permute = "*"
rand = "0.8"
