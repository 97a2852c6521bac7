[package]
name = "eat"
version = "0.1.0"
edition = "2021"
publish = false

[dependencies]
argh = "=0.1.19"
polyflag = "=0.3.0"
version = "=3.0.0"
