[package]
name = "keyoverlay"
version = "0.1.0"
edition = "2021"
publish = false

[dependencies]
rdev = "*"
simple-websockets = "*"
serde = { version = "*", features = ["derive"] }
toml = "*"
