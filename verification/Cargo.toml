[package]
name = "pathtrace"
version = "0.1.0"
edition = "2021"
publish = false

[dependencies]
rand = "*"
nalgebra = "*"
rayon = "*"
image = { version = "*", default-features = false, features = ["png"] }
