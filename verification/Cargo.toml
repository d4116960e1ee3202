[package]
name = "ami_logger"
version = "0.1.0"
edition = "2021"
publish = false

[dependencies]
chrono = "=0.4.45"
mysql = { version = "=28.0.3", default-features = false, features = ["minimal-rust"] }
serde = { version = "=1.0.229", features = ["derive"] }
toml = "=1.1.7"

[dev-dependencies]
serde_json = "=1.0.151"
