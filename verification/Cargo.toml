[package]
name = "wait_any_httpd"
version = "0.1.0"
edition = "2021"
publish = false

[dependencies]
demikernel = "*"
libc = "*"
