[package]
name = "minicel"
version = "0.1.0"
edition = "2021"
publish = false

[dependencies]
bigdecimal = "*"
multipeek = "*"
csv = "*"
log = "*"
pretty_env_logger = "*"
