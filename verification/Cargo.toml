[package]
name = "iwd_filter"
version = "0.1.0"
edition = "2021"
publish = false

[dependencies]
zip = { version = "*", default-features = false }
walkdir = "*"
