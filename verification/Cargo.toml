[package]
name = "polyrhythm"
version = "0.1.0"
edition = "2021"
publish = false

[dependencies]
midly = { version = "0.5", default-features = false, features = ["std", "alloc"] }
