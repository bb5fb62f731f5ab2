[package]
name = "threed_from_scratch"
version = "0.1.0"
edition = "2021"
publish = false

[dependencies]
sdl2 = "*"
sdl3 = "*"
png = "*"
