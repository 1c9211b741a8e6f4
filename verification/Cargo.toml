[package]
name = "php_safe_core"
version = "0.5.0"
edition = "2021"
publish = false

[dependencies]
libc = "*"
once_cell = "*"
