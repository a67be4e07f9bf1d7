[package]
name = "rustsecbot"
version = "0.1.0"
edition = "2021"
publish = false

[dependencies]
anyhow = "1"
clap = { version = "3", features = ["derive", "env"] }
hubcaps = { version = "0.6", default-features = false, features = ["rustls-tls"] }
serde = { version = "1", features = ["derive"] }
serde_json = "1"
serde_yaml = "0.8"
tokio = { version = "1", features = ["fs", "macros", "process", "rt", "sync", "time"] }
