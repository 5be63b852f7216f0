[package]
name = "geo_codec"
version = "0.1.0"
edition = "2021"
publish = false

[dependencies]
geo = "*"
serde = { version = "*", features = ["derive"] }
serde_json = "*"
