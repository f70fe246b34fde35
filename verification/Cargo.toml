[package]
name = "breakout"
version = "0.1.0"
edition = "2021"
publish = false

[dependencies]
anyhow = "1"
rand = "0.9"
sdl2 = { version = "*", features = ["ttf"] }
