[package]
name = "lumina"
version = "0.1.0"
edition = "2021"
publish = false

[dependencies]
log = "0.4"
mlua = { version = "0.10", features = ["lua54", "vendored"] }
winit = "0.30"
