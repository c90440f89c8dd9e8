[package]
name = "about_features"
version = "0.1.0"
edition = "2021"
publish = false

[dependencies]
anyhow = "*"
cargo_metadata = "*"
clap = { version = "*", features = ["derive"] }
walkdir = "*"
