[package]
name = "chip8"
version = "0.1.0"
edition = "2021"
publish = false

[dependencies]
rand = "=0.10.3"
anyhow = "=1.0.104"
macroquad = "=0.4.16"
rodio = "=0.22.2"
