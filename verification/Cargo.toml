[package]
name = "watchlock"
version = "0.1.0"
edition = "2021"
publish = false

[dependencies]
base64-simd = "0.8"
encoding_rs = "0.8"
