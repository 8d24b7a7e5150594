[package]
name = "scheduler"
version = "0.1.0"
edition = "2021"
publish = false

[dependencies]
rand = "*"
crossbeam-deque = "*"
libc = "*"
histogram = "*"
