[package]
name = "rustlebrot"
version = "0.1.0"
edition = "2021"
publish = false

[dependencies]
colorgrad = "0.6"
image = { version = "*", default-features = false, features = ["png"] }
rayon = "*"
