[package]
name = "workmux"
version = "0.1.0"
edition = "2021"
publish = false

[dependencies]
anyhow = "1"
home = "0.5"
serde = { version = "1", features = ["derive"] }
serde_json = "1"
shlex = "1"
slug = "0.1"
tracing = "0.1"
