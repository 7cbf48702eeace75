[package]
name = "system76_scheduler"
version = "0.1.0"
edition = "2021"
publish = false

[dependencies]
num_cpus = "*"
libc = "*"
ioprio = "*"
