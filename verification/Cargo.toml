[package]
name = "tokito_native"
version = "0.1.0"
edition = "2021"
publish = false

[dependencies]
anyhow = "1"
dirs = "*"
kiutils_kicad = "*"
walkdir = "2"
