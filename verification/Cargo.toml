[package]
name = "rfnet_core"
version = "0.1.0"
edition = "2021"
publish = false

[dependencies]
reed-solomon = "=0.2.1"
base64 = "=0.23.1"
