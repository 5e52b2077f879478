[package]
name = "ruxpy"
version = "0.1.0"
edition = "2021"
publish = false

[dependencies]
ignore = "0.4"
pyo3 = "0.25"
serde_json = "1"
sha3 = "0.10"
walkdir = "2"

[dev-dependencies]
tempfile = "3"
