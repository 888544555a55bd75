[package]
name = "fixed_width"
version = "0.1.0"
edition = "2021"
publish = false

[dependencies]
pad = "0.1"
yaml-rust = "0.4"
