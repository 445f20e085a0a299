[package]
name = "mashup"
version = "0.1.0"
edition = "2021"
publish = false

[dependencies]
proc-macro2 = { version = "=0.4.30", default-features = false }
