[package]
name = "bare_err_tree"
version = "0.1.0"
edition = "2021"
publish = false

[dependencies]
anyhow = "*"
eyre = "*"
tracing-core = "*"
tracing-error = "*"
