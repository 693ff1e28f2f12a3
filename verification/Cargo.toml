[package]
name = "teruic"
version = "0.1.0"
edition = "2021"
publish = false

[dependencies]
crossbeam-queue = "0.3"
spin = "0.5"
lazy_static = "1"
x86_64 = "0.14"
