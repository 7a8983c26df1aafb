[package]
name = "rlox"
version = "0.1.0"
edition = "2021"

[dependencies]
once_cell = "1"
rustc_apfloat = "0.2"
