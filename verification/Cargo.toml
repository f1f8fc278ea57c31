[package]
name = "loxi"
version = "0.1.0"
edition = "2021"
publish = false

[dependencies]
lasso = "0.7"
thiserror = "1"
