[package]
name = "attribution"
version = "0.1.0"
edition = "2021"
publish = false

[dependencies]
syn = "=1.0.109"
proc-macro2 = "=1.0.107"
quote = "=1.0.47"
