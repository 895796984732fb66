[package]
name = "solver"
version = "0.1.0"
edition = "2021"
publish = false

[dependencies]
anyhow = "=1.0.104"
eyre = "=0.6.14"

[dev-dependencies]
nom = "8"
