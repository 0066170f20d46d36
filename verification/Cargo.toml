[package]
name = "opendalfs"
version = "0.1.0"
edition = "2021"
publish = false

[dependencies]
opendal = { version = "0.50", features = ["services-memory", "services-s3"] }
