[package]
name = "dungenon"
version = "0.1.0"
edition = "2021"
publish = false

[dependencies]
rand = "=0.6.5"
rayon = "=1.12.0"
smallvec = "=1.16.4"
nalgebra = "0.17"
poisson = "=0.10.1"
cast = "=0.3.0"
image = { version = "=0.25.10", default-features = false, features = ["png"] }
