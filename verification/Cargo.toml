[package]
name = "trimage"
version = "0.1.0"
edition = "2021"
publish = false

[dependencies]
spade = "1.8"
image = { version = "0.24", default-features = false, features = ["png", "jpeg"] }
rand = "0.8"
clap = "2"
