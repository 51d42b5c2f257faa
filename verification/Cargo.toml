[package]
name = "chip_ate"
version = "0.1.0"
edition = "2021"
publish = false

[dependencies]
chip8_core = { version = "=0.4.0", features = ["std"] }
sdl2 = "=0.38.0"
