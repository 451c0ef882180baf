[package]
name = "starry"
version = "0.1.0"
edition = "2021"
publish = false

[dependencies]
serde_json = "1"
sled = "0.34"
dynamic_reload = "*"
tokio = { version = "1", features = ["rt-multi-thread", "macros", "sync", "time", "fs"] }
