[package]
name = "media_stats"
version = "0.1.0"
edition = "2021"
publish = false

[dependencies]
chrono = "*"
clap = { version = "*", features = ["derive"] }
comfy-table = "*"
console = "*"
csv = "*"
ffprobe = "*"
globset = "*"
indicatif = "*"
walkdir = "*"
