[package]
name = "tailwind_extract"
version = "0.1.0"
edition = "2021"
publish = false

[dependencies]
camino = "1"
rustc-hash = "2"
salsa = "*"
