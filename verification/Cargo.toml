[package]
name = "photoscope"
version = "0.1.0"
edition = "2021"
publish = false

[dependencies]
sha2 = "*"
anyhow = "*"
clap = { version = "*", features = ["derive"] }
colored = "*"
image = "*"
kamadak-exif = "*"
walkdir = "*"
