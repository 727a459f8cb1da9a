[package]
name = "heph_rt"
version = "0.1.0"
edition = "2021"
publish = false

[dependencies]
a10 = "=0.4.3"
libc = "=0.2.191"
