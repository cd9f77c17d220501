[package]
name = "a3s-dev"
version = "0.1.0"
edition = "2021"
publish = false

[dependencies]
colored = "=3.1.1"
dirs-next = "=2.0.0"
hcl-rs = "=0.19.9"
indexmap = { version = "=2.14.2", features = ["serde"] }
serde = { version = "=1.0.229", features = ["derive"] }
serde_json = "=1.0.154"
tokio = { version = "=1.54.1", features = ["fs", "io-util", "net", "process", "rt", "sync", "time"] }
tracing = "=0.1.44"
