[package]
name = "conescope"
version = "0.1.0"
edition = "2021"
publish = false

[dependencies]
pulldown-cmark = { version = "*", default-features = false }
names = { version = "*", default-features = false }
