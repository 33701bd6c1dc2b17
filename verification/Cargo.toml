[package]
name = "syndication_junction"
version = "0.1.0"
edition = "2021"
publish = false

[dependencies]
chrono = "*"
quick-xml = { version = "*", features = ["serialize"] }
serde = { version = "1", features = ["derive"] }
reqwest = { version = "*", default-features = false, features = ["rustls-tls", "stream"] }
tokio = { version = "1", features = ["rt-multi-thread", "macros"] }
futures-util = "*"
log = "*"
env_logger = "*"
