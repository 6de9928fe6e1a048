[package]
name = "uasset_deps"
version = "0.1.0"
edition = "2021"
publish = false

[dependencies]
uasset = "*"
walkdir = "*"
clap = { version = "*", features = ["derive"] }
graphviz-rust = "*"
