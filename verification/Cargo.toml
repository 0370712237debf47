[package]
name = "hier"
version = "0.1.0"
edition = "2021"
publish = false

[dependencies]
jni = { version = "0.21", features = ["invocation"] }
dot-writer = "*"
