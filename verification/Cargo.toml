[package]
name = "termdeck"
version = "0.1.0"
edition = "2021"
publish = false

[dependencies]
base64 = "=0.22.1"
arboard = { version = "=3.6.1", default-features = false }
dirs = "=6.0.0"
portable-pty = "=0.9.0"
serde = { version = "1", features = ["derive"] }
