[package]
name = "shell_emulator"
version = "0.1.0"
edition = "2021"
publish = false

[dependencies]
csv = "*"
zip = { version = "*", default-features = false, features = ["deflate"] }
