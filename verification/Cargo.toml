[package]
name = "openpol"
version = "0.1.0"
edition = "2021"
publish = false

[dependencies]
flic = "*"
rodio = { version = "0.17", default-features = false }
sdl2 = { version = "0.35", features = ["mixer"] }
sdl2-sys = { version = "0.35", features = ["mixer"] }
