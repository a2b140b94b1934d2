[package]
name = "koto"
version = "0.1.0"
edition = "2021"
publish = false

[dependencies]
downcast-rs = "1.2"
