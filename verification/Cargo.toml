[package]
name = "pattern_fit"
version = "0.1.0"
edition = "2021"
publish = false

[dependencies]
num = "0.4"
crossterm = "0.27"
indexmap = "2"
