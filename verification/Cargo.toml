[package]
name = "control_plane"
version = "0.1.0"
edition = "2021"
publish = false

[dependencies]
anyhow = "=1.0.104"
chrono = { version = "=0.4.45", default-features = false, features = ["clock", "serde"] }
serde = { version = "=1.0.229", features = ["derive"] }
thiserror = "=1.0.69"
uuid = { version = "=1.29.0", features = ["serde", "v4"] }
