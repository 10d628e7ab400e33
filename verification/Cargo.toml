[package]
name = "advanced_rust"
version = "0.1.0"
edition = "2021"
publish = false

[dependencies]
tokio = { version = "1", features = ["full"] }
syn = { version = "2", features = ["full"] }
quote = "1"
proc-macro2 = "1"
