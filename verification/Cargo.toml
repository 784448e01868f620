[package]
name = "splines"
version = "0.1.0"
edition = "2021"
publish = false

[dependencies]
num-traits = "*"
nalgebra = "*"
serde = { version = "*", features = ["derive"] }
serde_json = "*"
