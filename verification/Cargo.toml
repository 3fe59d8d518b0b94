[package]
name = "plank-bytecode-tests"
version = "0.1.0"
edition = "2021"
publish = false

[dependencies]
revm = "*"
thiserror = "2"
anstream = "*"
