[package]
name = "engine2d"
version = "0.1.0"
edition = "2021"
publish = false

[dependencies]
rand = "0.8"
serde = { version = "1", features = ["derive"] }
serde_json = "1"
winit = "0.25"
winit_input_helper = "0.10"
pixels = "0.2"
rodio = "0.14"
