[package]
name = "utah"
version = "0.1.0"
edition = "2021"
publish = false

[dependencies]
ndarray = "=0.17.2"

[dev-dependencies]
chrono = "=0.4.45"
