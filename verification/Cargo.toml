[package]
name = "notefit"
version = "0.1.0"
edition = "2021"
publish = false

[dependencies]
argmin = "=0.11.0"
argmin-math = "=0.5.1"
rand = "=0.9.5"
