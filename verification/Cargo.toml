[package]
name = "roc_front"
version = "0.1.0"
edition = "2021"
publish = false

[dependencies]
bumpalo = { version = "3", features = ["collections"] }
futures = "0.3"
im = "15"
tokio = { version = "1", features = ["rt", "sync"] }
