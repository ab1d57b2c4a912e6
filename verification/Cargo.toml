[package]
name = "lc3_simulator"
version = "0.1.0"
edition = "2021"

[dependencies]
failure = "0.1"
num = "0.4"
num-traits = "0.2"
