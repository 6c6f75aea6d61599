[package]
name = "runtime"
version = "0.1.0"
edition = "2021"
publish = false

[dependencies]
convert_case = "0.6.0"
sourcemap = "6.4.1"
syn = { version = "1.0.109", features = ["full"] }
quote = "=1.0.47"
proc-macro2 = "=1.0.107"
