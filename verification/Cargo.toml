[package]
name = "oma_apt"
version = "0.1.0"
edition = "2021"
publish = false

[dependencies]
cxx = "1"
once_cell = "1"
