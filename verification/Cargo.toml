[package]
name = "ztln"
version = "0.1.0"
edition = "2021"
publish = false

[dependencies]
uuid = { version = "0.8", features = ["v4", "serde"] }
bincode = "1.3"
regex-syntax = "0.8"
structopt = "0.3"
rand = "0.7"

[dev-dependencies]
regex = "1"
