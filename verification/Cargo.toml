[package]
name = "deck_catalog"
version = "0.1.0"
edition = "2021"
publish = false

[dependencies]
rocket = "0.5"
rocket_okapi = { version = "*", features = ["swagger"] }
serde = { version = "1", features = ["derive"] }
serde_json = "1"
