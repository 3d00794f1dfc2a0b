[package]
name = "linecount"
version = "0.2.0"
edition = "2021"
publish = false

[dependencies]
regex = "1"
clap = "2"
rayon = "1"
walkdir = "2"
