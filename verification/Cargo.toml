[package]
name = "ogrim"
version = "0.1.0"
edition = "2021"
publish = false

[dependencies]
litrs = "0.4"
proc-macro2 = "1"
quote = "1"
