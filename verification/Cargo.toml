[package]
name = "zensally"
version = "0.1.0"
edition = "2021"
publish = false

[dependencies]
zenflate = "=0.4.1"
enough = "=0.4.5"
anyhow = "=1.0.104"
serde = { version = "=1.0.229", features = ["derive"] }
zenlayout = { version = "=0.2.2", features = ["smart-crop"] }
tract-onnx = "=0.23.9"
