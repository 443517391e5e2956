[package]
name = "snowflake"
version = "0.1.0"
edition = "2021"
publish = false

[dependencies]
rand = "=0.4.6"
cairo-rs = { version = "0.4", features = ["png"] }
