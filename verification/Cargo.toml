[package]
name = "bayes_opt"
version = "0.1.0"
edition = "2021"
publish = false

[dependencies]
lazy_static = "1"
ndarray = { version = "0.15", features = ["rayon"] }
ndarray-linalg = "0.16"
num-traits = "0.2"
ord_subset = "3"
statrs = "*"
