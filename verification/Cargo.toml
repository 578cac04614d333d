[package]
name = "keru"
version = "0.1.0"
edition = "2021"
publish = false

[dependencies]
ahash = "=0.8.12"
rustc-hash = "=2.1.3"
slab = "=0.4.12"
glam = "=0.34.2"
smallvec = "=1.16.4"
bumpalo = { version = "3", features = ["collections"] }
