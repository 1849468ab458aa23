[package]
name = "nft_loader"
version = "0.1.0"
edition = "2021"
publish = false

[dependencies]
substreams = "=0.8.0"
substreams-ethereum = "=0.12.0"

[dev-dependencies]
ethabi = "=18.0.0"
