[package]
name = "libraw_nif"
version = "0.3.0"
edition = "2021"
publish = false

[dependencies]
rustler = "0.37"
