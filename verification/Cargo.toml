[package]
name = "sand_sim"
version = "0.1.0"
edition = "2021"
publish = false

[dependencies]
fastrand = "1.9"
pixels = "0.13"
winit = "0.28"
