[package]
name = "rust_bcf"
version = "0.1.0"
edition = "2021"
publish = false

[dependencies]
anyhow = "=1.0.104"
niffler = { version = "=2.5.0", default-features = false, features = ["gz"] }
