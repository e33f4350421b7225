[package]
name = "error_snippet"
version = "0.1.0"
edition = "2021"
publish = false

[dependencies]
owo-colors = "*"
indexmap = "*"
terminal_size = "*"
