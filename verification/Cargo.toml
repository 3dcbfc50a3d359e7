[package]
name = "ezlz"
version = "1.0.0"
edition = "2021"
publish = false

[dependencies]
ahash = "0.8"
itoa = "1"
serde_yaml = "0.9"
zmij = "*"
