[package]
name = "laralux_core"
version = "0.1.0"
edition = "2021"
publish = false

[dependencies]
serde = { version = "1", features = ["derive"] }
serde_json = "1"
toml = "0.8"
thiserror = "1"
zip = { version = "2", default-features = false, features = ["deflate"] }
