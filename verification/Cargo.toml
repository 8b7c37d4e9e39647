[package]
name = "sorting_visualiser"
version = "0.1.0"
edition = "2021"
publish = false

[dependencies]
nannou = { version = "=0.18.1", default-features = false }
nannou_audio = "=0.18.0"
nannou_core = "=0.18.0"
radix = "=0.6.0"
yaml-rust = "=0.4.5"
