[package]
name = "read_bazel_log"
version = "0.1.0"
edition = "2021"
publish = false

[dependencies]
regex = "1"
fancy-regex = "*"
quick-xml = "0.22"
walkdir = "2"
scanner-rust = "2"
futures = { version = "0.3", features = ["thread-pool"] }
