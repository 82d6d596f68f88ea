[package]
name = "rustgl"
version = "0.1.0"
edition = "2021"
publish = false

[dependencies]
itertools = "0.12"
serde = { version = "1", features = ["derive"] }
bincode = "1"
