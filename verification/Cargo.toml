[package]
name = "preaching_schedule"
version = "0.1.0"
edition = "2021"
publish = false

[dependencies]
time = "0.3"
rand = "0.8"
dirs = "*"
