[package]
name = "rmule"
version = "0.1.0"
edition = "2021"
publish = false

[dependencies]
time = "0.3"
reqwest = { version = "0.12", default-features = false }
tokio = { version = "1", features = ["rt-multi-thread", "macros"] }
futures = "0.3"
