[package]
name = "pathlink"
version = "0.1.0"
edition = "2021"
publish = false

[dependencies]
url = "2"
hr-id = "*"
smallvec = "1"
serde = { version = "1", features = ["derive"] }
get-size = "*"

[dev-dependencies]
serde_json = "1"
