[package]
name = "polymesh"
version = "0.1.0"
edition = "2021"
publish = false

[dependencies]
anyhow = "*"
obj-rs = "*"
