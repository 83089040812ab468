[package]
name = "doodles_lib"
version = "0.1.0"
edition = "2021"
publish = false

[dependencies]
nannou = { version = "0.16", default-features = false }
ndarray = "0.15"
rand = "0.8"
