[package]
name = "tetris"
version = "0.1.0"
edition = "2021"
publish = false

[dependencies]
rand = "0.9"
rust-libretro = "0.3"
tracing-appender = "0.2"
