[package]
name = "rust_demo"
version = "0.1.0"
edition = "2021"
publish = false

[dependencies]
sha3 = "=0.10.9"
rayon = "=1.12.0"
hex = "=0.4.3"
bumpalo = { version = "=3.20.3", features = ["collections"] }
libc = "=0.2.191"
memmap2 = "=0.9.12"
