[package]
name = "rforemost"
version = "0.1.0"
edition = "2021"
publish = false

[dependencies]
anyhow = "*"
byteorder = "*"
clap = { version = "*", features = ["derive"] }
memmap2 = "*"
rayon = "*"
