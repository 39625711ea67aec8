[package]
name = "snake"
version = "0.1.0"
edition = "2021"
publish = false

[dependencies]
rand = "0.9"
ggez = { version = "0.9", default-features = false }
