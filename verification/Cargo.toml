[package]
name = "kernel"
version = "0.1.0"
edition = "2021"
publish = false

[dependencies]
rand = "=0.10.3"
elfloader = "=0.16.0"
