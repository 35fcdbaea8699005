[package]
name = "abcrend"
version = "0.1.0"
edition = "2021"
publish = false

[dependencies]
abc-parser = "=0.3.0"
svg = "=0.18.0"
