[package]
name = "dirlist"
version = "0.1.0"
edition = "2021"
publish = false

[dependencies]
rayon = "*"
clap = { version = "*", features = ["derive"] }
comfy-table = "*"
indicatif = "*"
jwalk = "*"
