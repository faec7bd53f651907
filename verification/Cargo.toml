[package]
name = "longfred_proto"
version = "0.1.0"
edition = "2021"
publish = false

[dependencies]
serde = { version = "1", default-features = false, features = ["derive"] }
serde-json-core = "0.6"
