[package]
name = "locale_audit"
version = "0.1.0"
edition = "2021"
publish = false

[dependencies]
anyhow = "1"
elementtree = "1"
rayon = "1"
walkdir = "2"
