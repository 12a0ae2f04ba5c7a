[package]
name = "nalvik"
version = "0.1.0"
edition = "2021"
publish = false

[dependencies]
bytemuck = "1"
cgmath = "0.18"
arrayvec = "0.7"
rayon = "1"
noise = { version = "0.9", default-features = false }
image = { version = "0.25", default-features = false, features = ["png"] }
