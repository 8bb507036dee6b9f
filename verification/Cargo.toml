[package]
name = "dnslink"
version = "0.1.0"
edition = "2021"
publish = false

[dependencies]
anyhow = "=1.0.104"
aya = "0.14"
libc = "=0.2.191"
procfs = "=0.18.0"
