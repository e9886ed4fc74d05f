[package]
name = "iwd_unzip"
version = "0.1.0"
edition = "2021"
publish = false

[dependencies]
clap = { version = "*", features = ["derive"] }
colored = "*"
rayon = "*"
walkdir = "*"
zip = { version = "*", default-features = false, features = ["deflate"] }
