[package]
name = "ppanel_sdk"
version = "0.1.0"
edition = "2021"
publish = false

[dependencies]
prost = "0.13"
prost-types = "0.13"
syn = { version = "2", features = ["full", "parsing"] }
quote = "1"
proc-macro2 = "1"
