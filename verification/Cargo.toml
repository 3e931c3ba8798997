[package]
name = "typst_py"
version = "0.1.0"
edition = "2021"
publish = false

[dependencies]
pyo3 = "=0.23.5"
typst = "=0.13.1"
typst-kit = { version = "=0.13.1", default-features = false, features = ["fonts", "packages"] }
typst-pdf = "=0.13.1"
typst-svg = "=0.13.1"
typst-render = "=0.13.1"
serde_json = "=1.0.154"
serde_yaml = "=0.9.34"
comemo = "=0.4.0"
time = "=0.3.55"
