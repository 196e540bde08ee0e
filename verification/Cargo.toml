[package]
name = "nirvana"
version = "0.1.0"
edition = "2021"
publish = false

[dependencies]
chrono = "0.4"
serde_json = "1"
serde = { version = "1", features = ["derive"] }
toml = "0.8"
rusqlite = { version = "*", features = ["bundled"] }
reqwest = { version = "0.12", default-features = false, features = ["blocking", "json", "rustls-tls"] }
clap = { version = "4", features = ["derive"] }
console = "0.15"
dialoguer = { version = "0.11", features = ["fuzzy-select"] }
anyhow = "1"
thiserror = "2"
