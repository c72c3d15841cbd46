[package]
name = "sandbox"
version = "0.1.0"
edition = "2021"
publish = false

[dependencies]
anyhow = "1"
cgmath = "0.18"
contour = "*"
hecs = "*"
image = { version = "*", default-features = false, features = ["png"] }
rapier2d = "*"
rayon = "1"
serde = { version = "1", features = ["derive"] }
serde_json = "1"
