[package]
name = "send_to_eth_fees"
version = "0.1.0"
edition = "2021"
publish = false

[dependencies]
num256 = "0.3"
num = "0.4"
deep_space = "*"
clarity = "*"
actix = "*"
web30 = "*"
tonic = "*"
