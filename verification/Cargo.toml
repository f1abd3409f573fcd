[package]
name = "rusting_brain"
version = "0.1.0"
edition = "2021"
publish = false

[dependencies]
serde_json = "1"
rand = "0.8"
rayon = "1"
matrixmultiply = "0.3"
half = "2"
cudarc = { version = "0.16", default-features = false, features = ["std", "driver", "cublas", "nvrtc", "dynamic-loading", "cuda-12060", "f16"] }
