[package]
name = "rassifier"
version = "0.1.0"
edition = "2021"
publish = false

[dependencies]
zstd = "=0.14.0"
flate2 = "=1.1.10"
csv = "=1.4.0"
rustler = "=0.38.0"
