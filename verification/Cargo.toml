[package]
name = "scriptexec"
version = "0.1.0"
edition = "2021"
publish = false

[dependencies]
anyhow = "1"
bitcoin = { version = "0.32", default-features = false, features = ["std"] }
indexmap = "2"
