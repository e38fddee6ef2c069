[package]
name = "hashcache"
version = "0.1.0"
edition = "2021"
publish = false

[dependencies]
sha1 = "*"
walkdir = "*"
structopt = "*"
crossbeam-channel = "*"
