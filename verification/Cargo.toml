[package]
name = "pcat"
version = "0.1.0"
edition = "2021"
publish = false

[dependencies]
anyhow = "*"
clap = { version = "*", features = ["derive"] }
indicatif = { version = "*", features = ["rayon"] }
parquet = { version = "*", default-features = false }
rayon = "*"
