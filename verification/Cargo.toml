[package]
name = "cargo_select"
version = "0.1.0"
edition = "2021"
publish = false

[dependencies]
fuzzy-matcher = "0.3"
cargo_toml = "0.20"
clap = { version = "4", features = ["derive"] }
crossterm = "0.28"
flexi_logger = "0.29"
log = "0.4"
walkdir = "2"
