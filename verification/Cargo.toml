[package]
name = "log_engine"
version = "0.1.0"
edition = "2021"
publish = false

[dependencies]
pyo3 = { version = "0.20", features = ["extension-module"] }
rayon = "1"
regex = "1"
