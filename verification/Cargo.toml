[package]
name = "linecount"
version = "0.1.0"
edition = "2021"
publish = false

[dependencies]
bright = "*"
clap = "2"
crossbeam-deque = "0.8"
glob = "0.3"
num_cpus = "1"
rand = "0.8"
walkdir = "2"
