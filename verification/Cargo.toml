[package]
name = "asciii"
version = "0.1.0"
edition = "2021"
publish = false

[dependencies]
anyhow = "1"
chrono = "0.4"
dirs = "*"
linked-hash-map = "*"
log = "0.4"
prettytable-rs = "*"
rayon = "1"
slug = "*"
