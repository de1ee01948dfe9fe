[package]
name = "sml"
version = "1.1.0"
edition = "2021"
publish = false

[dependencies]
spin = "=0.9.9"
proc-macro2 = "=1.0.107"
syn = "2"
