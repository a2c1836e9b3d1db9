[package]
name = "lutdinho"
version = "0.1.0"
edition = "2021"
publish = false

[dependencies]
clap = "=2.34.0"
image = { version = "=0.25.10", default-features = false, features = ["png"] }
rayon = "=1.12.0"
regex = "=1.13.1"
