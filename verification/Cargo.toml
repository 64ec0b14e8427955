[package]
name = "localsearch"
version = "0.1.0"
edition = "2021"
publish = false

[dependencies]
rand = "0.9"
rayon = "1"
ordered-float = "*"
anyhow = "1"
thiserror = "2"
auto_impl = "1"
web-time = "1"
