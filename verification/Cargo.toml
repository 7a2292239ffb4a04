[package]
name = "image_manip"
version = "0.1.0"
edition = "2021"
publish = false

[dependencies]
blake3 = "*"
chrono = "*"
image = "*"
rayon = "*"
serde = { version = "*", features = ["derive"] }
serde_json = "*"
