[package]
name = "linuxy"
version = "0.1.0"
edition = "2021"
publish = false

[dependencies]
dirs = "6"
uuid = { version = "1", features = ["v4"] }
filetime = "0.2"
serde = { version = "1", features = ["derive"] }
serde_json = "1"
tokio = { version = "1", features = ["macros", "rt-multi-thread"] }
reqwest = { version = "0.12", default-features = false, features = ["rustls-tls", "stream"] }
futures-util = "0.3"
