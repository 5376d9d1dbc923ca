[package]
name = "ratelimiter_rs"
version = "0.1.0"
edition = "2021"
publish = false

[dependencies]
redis = "=1.8.0"
