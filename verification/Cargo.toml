[package]
name = "countercurrent"
version = "0.1.0"
edition = "2021"
publish = false

[dependencies]
scoped_threadpool = "0.1"
