[package]
name = "crx"
version = "0.1.0"
edition = "2021"
publish = false

[dependencies]
inflate = "*"
image = "*"

[dev-dependencies]
flate2 = "*"
