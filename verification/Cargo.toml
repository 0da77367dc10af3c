[package]
name = "hodgecodec"
version = "0.5.0"
edition = "2021"
publish = false

[dependencies]
hound = "3.5"
zstd = "0.13"
clap = { version = "4", features = ["derive"] }
