[package]
name = "menemen"
version = "0.2.2-alpha"
edition = "2021"
publish = false

[dependencies]
bufstream = "0.1"
native-tls = "0.2"
