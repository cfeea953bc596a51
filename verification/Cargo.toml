[package]
name = "amethyst_core"
version = "0.1.0"
edition = "2021"

[dependencies]
sha3 = "*"
