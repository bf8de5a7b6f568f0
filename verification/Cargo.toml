[package]
name = "sfbp"
version = "0.1.0"
edition = "2021"
publish = false

[dependencies]
chrono = "0.4"
fern = "0.6"
log = "0.4"
walkdir = "2"
