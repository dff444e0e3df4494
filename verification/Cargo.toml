[package]
name = "eso_addons"
version = "0.1.0"
edition = "2021"
publish = false

[dependencies]
regex = "=1.13.1"
serde = { version = "=1.0.229", features = ["derive"] }
serde_json = "=1.0.154"
dirs = "=7.0.0"
chrono = { version = "=0.4.45", features = ["serde"] }
version-compare = "=0.2.1"
md-5 = "0.10"
