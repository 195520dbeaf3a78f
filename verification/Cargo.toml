[package]
name = "hash_join_probe"
version = "0.1.0"
edition = "2021"
publish = false

[dependencies]
arrow2 = { version = "0.17", default-features = false }
