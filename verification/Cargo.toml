[package]
name = "ptfl_reader"
version = "0.1.0"
edition = "2021"
publish = false

[dependencies]
indexmap = "*"
svg = "*"
tev_client = "*"
rayon = "*"
tiny-skia = "*"
