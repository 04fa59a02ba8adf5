[package]
name = "warp_matcher"
version = "0.1.0"
edition = "2021"
publish = false

[dependencies]
binaryninja = "*"
dashmap = "6.1"
log = "0.4"
walkdir = "2.5"
