[package]
name = "hexpxl"
version = "0.1.0"
edition = "2021"
publish = false

[dependencies]
clap = "2.34"
image = "0.24"
rayon = "1"
