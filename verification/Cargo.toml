[package]
name = "sitegen"
version = "0.1.0"
edition = "2021"
publish = false

[dependencies]
slug = "*"
glob = "*"
walkdir = "*"
serde = { version = "1", features = ["derive"] }
tera = { version = "1", default-features = false }
