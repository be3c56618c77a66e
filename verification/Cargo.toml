[package]
name = "cargo_psx"
version = "0.1.0"
edition = "2021"
publish = false

[dependencies]
cargo_metadata = "=0.18.1"
clap = { version = "4", features = ["derive"] }
walkdir = "2"
xml-builder = "*"
