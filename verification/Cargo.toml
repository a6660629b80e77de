[package]
name = "raytracer"
version = "0.1.0"
edition = "2021"
publish = false

[dependencies]
clap = { version = "4", features = ["derive"] }
png = "0.17"
rand = "0.8"
serde_json = "1"
threadpool = "1"
