[package]
name = "message_length"
version = "0.1.0"
edition = "2021"
publish = false

[dependencies]
bitvec = "*"
rand = "*"
