[package]
name = "wad_mount"
version = "0.1.0"
edition = "2021"
publish = false

[dependencies]
uuid = { version = "1", features = ["v4"] }
flate2 = "1"
ruzstd = "*"
itertools = "0.13"
tracing = "0.1"
