[package]
name = "interpreters"
version = "0.1.0"
edition = "2021"
publish = false

[dependencies]
anyhow = "1"
syn = { version = "1", features = ["full"] }
