[package]
name = "gearset"
version = "0.1.0"
edition = "2021"
publish = false

[dependencies]
enum-map = "=2.7.3"
indicatif = "=0.18.6"
itertools = "=0.15.0"
serde = { version = "=1.0.229", features = ["derive"] }
serde_json = "=1.0.154"
