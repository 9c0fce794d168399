[package]
name = "radiance"
version = "0.1.0"
edition = "2021"
publish = false

[dependencies]
ash = "*"
downcast-rs = "*"
image = { version = "*", default-features = false, features = ["png"] }
