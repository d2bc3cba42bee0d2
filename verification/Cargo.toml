[package]
name = "project_build"
version = "0.1.0"
edition = "2021"
publish = false

[dependencies]
libc = "0.2"
once_cell = "1"
serde = { version = "1", features = ["derive"] }
serde_json = "1"
tauri = { version = "2", default-features = false }
wait-timeout = "0.2"
