[package]
name = "python_calamine"
version = "0.1.0"
edition = "2021"
publish = false

[dependencies]
pyo3 = { version = "0.20", features = ["abi3-py38"] }
calamine = "0.22"
