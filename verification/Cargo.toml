[package]
name = "bdemu"
version = "0.1.0"
edition = "2021"
publish = false

[dependencies]
libc = "0.2"
once_cell = "1"
serde = { version = "1", features = ["derive"] }
serde_json = "1"
