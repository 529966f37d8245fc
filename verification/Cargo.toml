[package]
name = "script_interpreter"
version = "0.1.0"
edition = "2021"
publish = false

[dependencies]
anyhow = "1"
hex = "0.4"
ripemd = "0.1"
sha2 = "0.10"
