[package]
name = "logtail"
version = "0.1.0"
edition = "2021"
publish = false

[dependencies]
notify = "*"
reqwest = { version = "*", default-features = false, features = ["json", "rustls-tls"] }
serde_json = "*"
tokio = { version = "*", features = ["rt-multi-thread", "macros"] }
