[package]
name = "wasmix"
version = "0.1.0"
edition = "2021"
publish = false

[dependencies]
font8x8 = "*"
wasmi = "*"
