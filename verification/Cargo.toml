[package]
name = "two_sided_vec"
version = "0.1.0"
edition = "2021"
publish = false

[dependencies]
serde = "1"
