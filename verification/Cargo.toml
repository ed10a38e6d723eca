[package]
name = "astrid-capsule-openai-compat"
version = "0.1.0"
edition = "2021"
publish = false

[dependencies]
astrid-sdk = "*"
serde = { version = "1", features = ["derive"] }
serde_json = "1"
uuid = "1"
