[package]
name = "crossbeam-queue"
version = "0.1.0"
edition = "2021"
publish = false

[dependencies]
crossbeam-utils = "0.8"

[dev-dependencies]
rand = "0.8"
