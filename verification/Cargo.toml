[package]
name = "battmeter"
version = "0.1.0"
edition = "2021"
publish = false

[dependencies]
libc = "0.2"
errno = "0.3"
time = "0.1"
