[package]
name = "thsr_booking"
version = "0.1.0"
edition = "2021"
publish = false

[dependencies]
bytes = "1"
clap = { version = "4", features = ["derive", "env"] }
reqwest = { version = "0.12", default-features = false, features = ["blocking", "cookies", "rustls-tls", "charset", "http2"] }
scraper = "0.23"
serde = { version = "1", features = ["derive"] }
serde_urlencoded = "0.7"
