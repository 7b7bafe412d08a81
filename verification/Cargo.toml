[package]
name = "ribbot"
version = "0.1.0"
edition = "2021"
publish = false

[dependencies]
anyhow = "=1.0.104"
chrono = { version = "=0.4.45", features = ["serde"] }
reqwest = { version = "=0.11.27", default-features = false, features = ["blocking", "rustls-tls"] }
serde = "=1.0.229"
serde_derive = "=1.0.229"
serde_json = "=1.0.154"
structopt = "=0.3.26"
toml = "=0.5.11"
