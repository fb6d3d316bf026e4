[package]
name = "comment_sanitizer"
version = "0.1.0"
edition = "2021"
publish = false

[dependencies]
anyhow = "1"
jsonwebtoken = "9"
regex = "1"
reqwest = { version = "0.12", default-features = false, features = ["blocking", "json", "rustls-tls"] }
serde = { version = "1", features = ["derive"] }
serde_json = { version = "1", features = ["preserve_order"] }
unicode-normalization = "0.1"
