[package]
name = "ak"
version = "0.1.0"
edition = "2021"
publish = false

[dependencies]
rand_core = "0.9"
rayon = "1"
thiserror = "2"
