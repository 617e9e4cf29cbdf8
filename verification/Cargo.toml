[package]
name = "aur_updater"
version = "0.1.0"
edition = "2021"
publish = false

[dependencies]
clap = { version = "=4.6.7", features = ["derive"] }
clap_complete = "=4.6.11"
reqwest = { version = "=0.12.28", default-features = false, features = ["blocking", "json", "rustls-tls"] }
serde = { version = "=1.0.229", features = ["derive"] }
thiserror = "=2.0.21"
toml = "=0.8.23"
tracing = "=0.1.44"
tracing-subscriber = "=0.3.23"

[dev-dependencies]
serde_json = "=1.0.154"
