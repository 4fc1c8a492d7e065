[package]
name = "dupfinder"
version = "0.1.0"
edition = "2021"
publish = false

[dependencies]
twox-hash = "1"
clap = { version = "4", features = ["derive"] }
rayon = "1"
walkdir = "2"
