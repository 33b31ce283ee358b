[package]
name = "tfl"
version = "0.1.0"
edition = "2021"
publish = false

[dependencies]
ansiterm = "*"
nu-ansi-term = "*"
reedline = "*"
