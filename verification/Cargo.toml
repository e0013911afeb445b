[package]
name = "sorted_debug"
version = "0.1.0"
edition = "2021"
publish = false

[dependencies]
pretty_assertions = "=1.4.1"
