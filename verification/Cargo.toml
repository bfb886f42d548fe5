[package]
name = "nougat"
version = "0.1.0"
edition = "2021"
publish = false

[dependencies]
anyhow = "*"
glam = "*"
indicatif = { version = "*", features = ["rayon"] }
rand = "*"
rand_distr = "*"
rayon = "*"
serde = { version = "*", features = ["derive"] }
toml = "*"
