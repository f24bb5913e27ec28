[package]
name = "ruloc"
version = "0.1.0"
edition = "2021"
publish = false

[dependencies]
clap = { version = "*", features = ["derive"] }
colored = "*"
env_logger = "*"
indicatif = "*"
log = "*"
ra_ap_syntax = "=0.0.300"
rayon = "*"
serde = { version = "*", features = ["derive"] }
serde_json = "*"
tempfile = "*"
walkdir = "*"
