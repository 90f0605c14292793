[package]
name = "llamalogs"
version = "0.1.0"
edition = "2021"
publish = false

[dependencies]
chrono = "0.4"
serde = { version = "1", features = ["derive"] }
serde_json = "1"
futures = "0.3"
thiserror = "1"
surf = { version = "2", default-features = false, features = ["h1-client-rustls"] }
