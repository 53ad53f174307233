[package]
name = "vmcircbuffer"
version = "0.1.0"
edition = "2021"
publish = false

[dependencies]
libc = "0.2"
futures = "0.3"
once_cell = "1"
rand = "0.8"
