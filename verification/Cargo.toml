[package]
name = "ixy_net"
version = "0.1.0"
edition = "2021"
publish = false

[dependencies]
ethox = { version = "=0.0.2", features = ["std"] }
