[package]
name = "lumia_viewer"
version = "0.2.1"
edition = "2021"
publish = false

[dependencies]
anyhow = "1"
base64 = "0.22"
dirs = "6"
hex = "0.4"
ring = "0.17"
semver = "1"
serde = { version = "1", features = ["derive"] }
serde_json = "1"
sha2 = "0.10"
url = "2"
uuid = { version = "1", features = ["v7"] }
zip = { version = "2", default-features = false, features = ["deflate"] }
