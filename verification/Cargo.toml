[package]
name = "mev_builder_core"
version = "0.1.0"
edition = "2021"
publish = false

[dependencies]
hex = "=0.4.3"
flate2 = "=1.0.35"
dashmap = "=5.5.3"
serde = { version = "=1.0.229", features = ["derive"] }
serde_json = "=1.0.151"
reqwest = { version = "=0.11.27", default-features = false, features = ["blocking", "json"] }
