[package]
name = "transaction"
version = "0.1.0"
edition = "2021"
publish = false

[dependencies]
proptest = "1"
tempfile = "3"
