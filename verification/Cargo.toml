[package]
name = "configopt_schema"
version = "0.1.0"
edition = "2021"
publish = false

[dependencies]
heck = "=0.3.3"
proc-macro2 = "=1.0.107"
syn = { version = "=1.0.109", features = ["full"] }
