[package]
name = "http11"
version = "0.1.0"
edition = "2021"
publish = false

[dependencies]
regex = "1"
tokio = { version = "1", default-features = false, features = ["net", "rt"] }
