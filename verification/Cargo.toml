[package]
name = "strompy"
version = "0.1.0"
edition = "2021"
publish = false

[dependencies]
struson = "*"
heapless = "0.8"
nalgebra = "0.33"
futures = "0.3"
serde = { version = "1", features = ["derive"] }
serde_json = "1"
serde-transcode = "1"
crc32fast = "1"
pyo3 = { version = "0.22", features = ["experimental-async"] }
