[package]
name = "multi-desktop"
version = "0.1.0"
edition = "2021"
publish = false

[dependencies]
sha2 = "0.10"
rustls-pemfile = "2"
rustls = "0.23"
serde_json = "1"
