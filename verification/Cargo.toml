[package]
name = "livekit_analyzer"
version = "0.4.0"
edition = "2021"
publish = false

[dependencies]
regex = "1"
anyhow = "1"
serde = { version = "1", features = ["derive"] }
serde_json = "1"
serde_yaml = "0.9"
crossterm = "0.28"
ratatui = "0.29"
pcap-file = "2"
tempfile = "3"
zip = { version = "2", default-features = false, features = ["deflate"] }
jsonwebtoken = "9"
reqwest = { version = "0.12", default-features = false, features = ["blocking", "json", "rustls-tls"] }
