[package]
name = "semantle_core"
version = "0.1.0"
edition = "2021"
publish = false

[dependencies]
finalfusion = "*"
itertools = "*"
rand = "*"
rustyline = "*"
term_size = "*"
