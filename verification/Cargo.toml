[package]
name = "proximity"
version = "0.1.0"
edition = "2021"
publish = false

[dependencies]
arrayvec = "0.7"
rand = { version = "0.9", features = ["small_rng"] }
colored = "2"
pyo3 = "0.23"
