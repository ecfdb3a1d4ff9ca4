[package]
name = "windows-args"
version = "0.2.0"
edition = "2021"
publish = false

[dependencies]
wtf8 = "0.1.0"
