[package]
name = "sysgraph"
version = "0.1.0"
edition = "2021"
publish = false

[dependencies]
anyhow = "1"
regex = "1"
termion = "*"
unicode-width = "*"
collar = "*"
comat = "*"
human_bytes = "*"
pretty-bytes = "*"
nvml-wrapper = "*"
ping-rs = "*"
parking_lot = "*"
itertools = "*"
