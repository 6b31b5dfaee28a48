[package]
name = "stream_log_client"
version = "0.1.0"
edition = "2021"
publish = false

[dependencies]
chrono = "=0.4.45"
rgb = "=0.8.53"
contrast = "=0.1.1"
futures = "0.3"
serde = { version = "1", features = ["derive"] }
serde_json = "1"
web-sys = { version = "0.3", features = ["Window", "Document", "Selection"] }
