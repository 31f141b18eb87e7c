[package]
name = "jobcore"
version = "0.1.0"
edition = "2021"
publish = false

[dependencies]
base64 = "*"
bcrypt = "*"
serde = { version = "*", features = ["derive"] }
serde_json = "*"
