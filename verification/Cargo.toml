[package]
name = "swiftcore"
version = "0.1.0"
edition = "2021"
publish = false

[dependencies]
spin = "=0.9.9"
x86_64 = { version = "=0.15.5", default-features = false, features = ["instructions"] }
