[package]
name = "spot_check"
version = "0.1.0"
edition = "2021"
publish = false

[dependencies]
anyhow = "1"
clap = { version = "4", features = ["derive"] }
console = "0.15"
indicatif = "0.17"
io-block = "*"
libc = "0.2"
rand = { version = "0.8", features = ["small_rng"] }
