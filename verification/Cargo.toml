[package]
name = "tinycodec"
version = "0.1.0"
edition = "2021"
publish = false

[dependencies]
anyhow = "1"
bitstream-io = "2"
clap = { version = "4", features = ["derive"] }
kdam = "*"
ndarray = "0.16"
rayon = "1"
video-rs = { version = "*", features = ["ndarray"] }
