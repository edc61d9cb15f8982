[package]
name = "ament_rs"
version = "0.1.0"
edition = "2021"
publish = false

[dependencies]
walkdir = "2"

[dev-dependencies]
tempfile = "3"
fs-err = "*"
