[package]
name = "wgames"
version = "0.1.0"
edition = "2021"
publish = false

[dependencies]
rand = "0.8"
chrono = "0.4"
itertools = "*"
device_query = "*"
colored = "*"
rayon = "1"
fnv = "1"
