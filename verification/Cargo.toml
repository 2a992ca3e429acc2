[package]
name = "merkle_tree"
version = "0.1.0"
edition = "2021"
publish = false

[dependencies]
bytevec = "*"
sha2 = "*"
hex = "*"
