[package]
name = "tailcall"
version = "0.1.0"
edition = "2021"
publish = false

[dependencies]
convert_case = "*"
fnv = "1"
oas3 = "*"
serde_json = "1"
