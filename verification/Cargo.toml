[package]
name = "veredus"
version = "0.1.0"
edition = "2021"
publish = false

[dependencies]
argon2 = "0.5"
blake2 = "0.10"
chrono = "0.4"
clap = { version = "4", features = ["derive"] }
documented = "*"
futures = "0.3"
hex = "0.4"
mimalloc = "*"
prometheus = { version = "*", default-features = false }
reqwest = { version = "0.12", default-features = false, features = ["rustls-tls"] }
rocket = { version = "0.5", default-features = false }
rusty_enet = "*"
sasl = "*"
serde = { version = "1", features = ["derive"] }
serde_json = "1"
sha2 = "0.10"
thiserror = "*"
tokio = { version = "1", features = ["full"] }
tokio-xmpp = "5"
toml = "*"
toml_edit = "*"
tracing = "0.1"
tracing-loki = "*"
tracing-subscriber = { version = "0.3", features = ["env-filter"] }
uuid = { version = "1", features = ["v4", "v7"] }
