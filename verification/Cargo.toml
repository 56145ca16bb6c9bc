[package]
name = "armonik_api"
version = "0.1.0"
edition = "2021"
publish = false

[dependencies]
fnv = "1"
http = "1"
rustls-pki-types = { version = "1", features = ["std"] }
prost = "0.13"
prost-types = "0.13"
proc-macro2 = "1"
quote = "1"
syn = { version = "2", features = ["full"] }
