[package]
name = "binpatch"
version = "0.1.0"
edition = "2021"

[dependencies]
prompted = "*"
