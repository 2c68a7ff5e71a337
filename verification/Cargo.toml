[package]
name = "raytracer"
version = "0.1.0"
edition = "2021"
publish = false

[dependencies]
num_cpus = "1"
png = "0.17"
rand = { version = "0.8", features = ["small_rng"] }
