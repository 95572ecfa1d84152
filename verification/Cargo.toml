[package]
name = "tempstack"
version = "0.1.0"
edition = "2021"
publish = false

[dependencies]
atty = "0.2"
clap = "2"
log = "0.4"
simple_logger = "*"
