[package]
name = "debug_parse"
version = "0.1.0"
edition = "2021"
publish = false

[dependencies]
bumpalo = { version = "3", features = ["collections"] }
annotate-snippets = "0.11"
