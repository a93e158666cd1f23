[package]
name = "elb_logs"
version = "0.1.0"
edition = "2021"
publish = false

[dependencies]
walkdir = "*"

[dev-dependencies]
chrono = "*"
