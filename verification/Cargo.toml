[package]
name = "scaproust"
version = "0.3.0"
edition = "2021"
publish = false

[dependencies]
byteorder = "1"
mio = "0.6"
time = "0.1"
