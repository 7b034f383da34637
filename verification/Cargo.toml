[package]
name = "st7789"
version = "0.1.0"
edition = "2021"
publish = false

[dependencies]
embassy-rp = { version = "*", features = ["rp2040"] }
embassy-time = "*"
