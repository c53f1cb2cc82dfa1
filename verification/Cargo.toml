[package]
name = "wgsl_includes"
version = "0.1.0"
edition = "2021"
publish = false

[dependencies]
naga = { version = "*", features = ["wgsl-in"] }
syn = "*"
