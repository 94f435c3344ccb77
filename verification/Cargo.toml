[package]
name = "simple_safe"
version = "0.1.0"
edition = "2021"
publish = false

[dependencies]
rust-argon2 = "*"
base64 = "*"
getrandom = "*"
