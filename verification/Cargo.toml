[package]
name = "frame_ring"
version = "0.1.0"
edition = "2021"
publish = false

[dependencies]
linux-futex = "*"
async-channel = "*"
nokhwa = "*"
image = "*"
rqrr = "*"
