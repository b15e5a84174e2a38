[package]
name = "ndir"
version = "0.1.0"
edition = "2021"
publish = false

[dependencies]
crossterm = "0.28"
fuzzy-matcher = "0.3"

[dev-dependencies]
tempfile = "3"
