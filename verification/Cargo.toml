[package]
name = "dependency_injector"
version = "0.1.0"
edition = "2021"
publish = false

[dependencies]
dashmap = "=6.2.1"
ahash = "=0.8.12"
boomphf = "=0.6.0"
tracing = "=0.1.44"
tracing-subscriber = { version = "=0.3.23", features = ["json"] }
