[package]
name = "prism"
version = "0.1.0"
edition = "2021"
publish = false

[dependencies]
bincode = "1.3"
ring = "0.17"
crossbeam = "0.8"
log = "0.4"
rand = "0.6"
