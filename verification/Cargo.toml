[package]
name = "rust_force"
version = "0.1.0"
edition = "2021"
publish = false

[dependencies]
lazy_static = "1"
pyo3 = { version = "0.20", features = ["extension-module"] }
rayon = "1"
serde_json = "1"
uuid = "1"
