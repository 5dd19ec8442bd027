[package]
name = "fileserve"
version = "0.1.0"
edition = "2021"
publish = false

[dependencies]
httparse = "1"
clap = "*"
threadpool = "1"
