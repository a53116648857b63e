[package]
name = "disc_span"
version = "0.1.0"
edition = "2021"
publish = false

[dependencies]
clap = { version = "=4.6.7", features = ["derive"] }
walkdir = "=2.5.0"
