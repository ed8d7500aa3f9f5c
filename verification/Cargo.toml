[package]
name = "vnet"
version = "0.1.0"
edition = "2021"
publish = false

[dependencies]
etherparse = "=0.15.0"
ipnet = "2"
circular-buffer = "0.1"
rand = "0.8"
rustyline = "14"
