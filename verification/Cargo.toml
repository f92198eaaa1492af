[package]
name = "raytracer"
version = "0.1.0"
edition = "2021"
publish = false

[dependencies]
rand = "=0.8.8"
base64 = "=0.13.1"
glam = "=0.20.5"
image = "=0.23.14"
clap = "=2.34.0"
indicatif = "=0.17.11"
rayon = "=1.12.0"
serde = { version = "=1.0.229", features = ["derive"] }
serde_json = "=1.0.154"
gltf = { version = "1", default-features = false, features = ["KHR_lights_punctual"] }
