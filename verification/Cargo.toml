[package]
name = "ccbenchmark"
version = "0.1.0"
edition = "2021"
publish = false

[dependencies]
pyo3 = { version = "*", features = ["abi3-py39"] }
