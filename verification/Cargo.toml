[package]
name = "stashroom"
version = "0.1.0"
edition = "2021"
publish = false

[dependencies]
git2 = { version = "0.19", default-features = false }
uuid = { version = "1", features = ["v4"] }
chrono = "0.4"
serde = { version = "1", features = ["derive"] }
serde_json = "1"
notify = "6.1"
anyhow = "1"

[dev-dependencies]
tempfile = "3.8"
