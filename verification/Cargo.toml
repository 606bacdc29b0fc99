[package]
name = "kroom-core"
version = "0.1.0"
edition = "2021"
publish = false

[dependencies]
daggy = "0.8"
inventory = "0.3"
syn = { version = "2", features = ["full"] }
quote = "1"
proc-macro2 = "1"
