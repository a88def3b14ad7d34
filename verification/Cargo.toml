[package]
name = "pkg"
version = "1.2.0"
edition = "2021"
publish = false

[dependencies]
fuzzy-matcher = "0.3"
which = "*"
tokio = { version = "1", features = ["rt-multi-thread", "macros", "process"] }
dialoguer = "*"
