[package]
name = "der"
version = "0.1.0"
edition = "2021"
publish = false

[dependencies]
arbitrary = "1"
bytes = "1"
heapless = "0.8"
