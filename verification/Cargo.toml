[package]
name = "kernel"
version = "0.1.0"
edition = "2021"
publish = false

[dependencies]
crossbeam-queue = "*"
smallvec = "*"
chrono = { version = "*", default-features = false }
itertools = "*"
x86_64 = { version = "*", default-features = false, features = ["instructions"] }
