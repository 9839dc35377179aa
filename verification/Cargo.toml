[package]
name = "staticfilemap"
version = "0.1.0"
edition = "2021"
publish = false

[dependencies]
minilz4 = "*"
zstd = "*"
