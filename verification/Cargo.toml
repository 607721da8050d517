[package]
name = "crab_rt"
version = "0.1.0"
edition = "2021"
publish = false

[dependencies]
rand = { version = "0.8", features = ["small_rng"] }
image = { version = "0.24", default-features = false, features = ["png", "jpeg"] }
anyhow = "1"
core_affinity = "*"
