[package]
name = "raster"
version = "0.1.0"
edition = "2021"
publish = false

[dependencies]
sdl2 = "*"
serde = "*"
serde_derive = "*"
serde_json = "*"
