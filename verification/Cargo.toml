[package]
name = "assetx"
version = "0.1.0"
edition = "2021"
publish = false

[dependencies]
ethabi = "18"
alloy-sol-types = "*"
