[package]
name = "little_raft"
version = "0.1.0"
edition = "2021"
publish = false

[dependencies]
crossbeam = "*"
crossbeam-channel = "*"
rand = "0.8"
