[package]
name = "ipfs_api_backend_http_req"
version = "0.1.0"
edition = "2021"
publish = false

[dependencies]
http_req = "*"
