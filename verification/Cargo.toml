[package]
name = "rust_secret_png"
version = "0.1.0"
edition = "2021"
publish = false

[dependencies]
crc = "1.8.1"
structopt = "0.3"
