[package]
name = "deepzoom_pano"
version = "0.1.0"
edition = "2021"
publish = false

[dependencies]
anyhow = "1"
image = { version = "0.24", default-features = false, features = ["jpeg"] }
imagesize = "*"
seahorse = "2"
