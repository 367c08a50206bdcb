[package]
name = "cargo_cleaner"
version = "0.1.0"
edition = "2021"
publish = false

[dependencies]
byte-unit = "*"
clap = { version = "*", features = ["derive"] }
comfy-table = "*"
dotenvy = "*"
miette = "*"
rayon = "*"
tracing = "*"
tracing-subscriber = "*"
walkdir = "*"
