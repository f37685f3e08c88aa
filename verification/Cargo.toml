[package]
name = "bodyflat"
version = "0.1.0"
edition = "2021"
publish = false

[dependencies]
serde_json = "1.0"
xmlparser = "0.13"
multipart = { version = "0.18", default-features = false, features = ["server"] }
