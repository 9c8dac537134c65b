[package]
name = "search_bench"
version = "0.1.0"
edition = "2021"
publish = false

[dependencies]
rand = "0.8"
csv = "1"
plotters = "0.3"
