[package]
name = "skateboard_slope"
version = "0.1.0"
edition = "2021"
publish = false

[dependencies]
rand = "=0.8.8"
sdl3 = { version = "=0.22.0", features = ["ttf"] }
serde = { version = "=1.0.229", features = ["derive"] }
csv = "=1.4.0"
obj-rs = "0.7"
