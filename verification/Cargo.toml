[package]
name = "application_layer"
version = "0.1.0"
edition = "2021"
publish = false

[dependencies]
ndarray = { version = "=0.15.6", features = ["rayon"] }
