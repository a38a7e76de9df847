[package]
name = "lapack_lu"
version = "0.1.0"
edition = "2021"
publish = false

[dependencies]
lapack = "0.19"
nalgebra = { version = "0.33", default-features = false, features = ["std"] }
num-complex = "0.4"
num-traits = "0.2"
