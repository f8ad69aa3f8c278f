[package]
name = "canary"
version = "0.1.0"
edition = "2021"
publish = false

[dependencies]
async-stream = "0.3"
clap = { version = "4", features = ["derive"] }
futures-core = "0.3"
miette = "*"
statrs = "*"
tokio = { version = "1", features = ["macros", "rt-multi-thread", "sync", "time"] }
tokio-stream = { version = "0.1", features = ["time"] }
