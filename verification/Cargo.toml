[package]
name = "faster_pest"
version = "0.1.0"
edition = "2021"
publish = false

[dependencies]
pest = "2"
pest_meta = "2"
proc-macro2 = "1"
syn = { version = "1", features = ["full"] }
