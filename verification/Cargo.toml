[package]
name = "mojo_rs"
version = "0.1.0"
edition = "2021"
publish = false

[dependencies]
hex = "0.4"
libc = "0.2"
serde = { version = "1", features = ["derive"] }
serde_json = "1"
sha2 = "0.10"
