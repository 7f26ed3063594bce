[package]
name = "rust_demo"
version = "0.1.0"
edition = "2021"
publish = false

[dependencies]
md5 = "0.7"
pathdiff = "0.2"
clap = { version = "4", features = ["derive"] }
serde = { version = "1", features = ["derive"] }
serde_json = "1"
walkdir = "2"
