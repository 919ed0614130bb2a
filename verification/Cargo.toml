[package]
name = "bartib"
version = "0.1.0"
edition = "2021"
publish = false

[dependencies]
chrono = "0.4"
anyhow = "1"
nu-ansi-term = "0.50"
