[package]
name = "html_stream"
version = "0.1.0"
edition = "2021"
publish = false

[dependencies]
regex = "1"
