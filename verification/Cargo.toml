[package]
name = "uv_bazel"
version = "0.1.0"
edition = "2021"
publish = false

[dependencies]
fs-err = "3"
serde = { version = "1", features = ["derive"] }
serde_json = "1"
walkdir = "2"
windows = { version = "0.61", default-features = false, features = ["Win32_Foundation", "Win32_System_Threading"] }
