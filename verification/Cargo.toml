[package]
name = "bitcraft_game"
version = "0.1.0"
edition = "2021"
publish = false
rust-version = "1.95"

[dependencies]
spacetimedb = "=2.0.5"
