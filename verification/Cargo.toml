[package]
name = "futility"
version = "0.1.0"
edition = "2021"
publish = false

[dev-dependencies]
color-eyre = "*"
