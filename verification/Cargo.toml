[package]
name = "matfile"
version = "0.1.0"
edition = "2021"
publish = false

[dependencies]
libflate = "*"
nom = "7"
num-traits = "0.2"
