[package]
name = "crablit"
version = "0.1.0"
edition = "2021"
publish = false

[dependencies]
colored = "*"
fastrand = "2"
rustyline = "*"
