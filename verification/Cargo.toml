[package]
name = "raytracer"
version = "0.1.0"
edition = "2021"
publish = false

[dependencies]
rand = "=0.8.8"
image = { version = "=0.24.9", default-features = false, features = ["jpeg", "png"] }
crossbeam = "=0.8.5"
indicatif = "0.17"
