[package]
name = "tetris"
version = "0.1.0"
edition = "2021"
publish = false

[dependencies]
rand = "0.8.5"
sdl2 = { version = "*", features = ["image"] }
