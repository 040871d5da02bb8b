[package]
name = "harper"
version = "0.1.0"
edition = "2021"
publish = false

[dependencies]
decompound = "*"
zstd = "*"
serde = { version = "1", features = ["derive"] }
