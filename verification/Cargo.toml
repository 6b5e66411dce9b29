[package]
name = "logo"
version = "0.1.0"
edition = "2021"

[dependencies]
rand = "0.8"
rustc_apfloat = "*"
svg = "*"
