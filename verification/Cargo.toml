[package]
name = "kuadrant_praxis"
version = "0.1.0"
edition = "2021"
publish = false

[dependencies]
async-trait = "0.1"
bytes = "1"
dashmap = "6"
http = "1"
serde = { version = "1", features = ["derive"] }
serde_yaml = "0.9"
tokio = { version = "1", features = ["rt", "rt-multi-thread", "macros"] }
tonic = "0.12"
tower = { version = "0.4", features = ["util"] }
tracing = "0.1"
