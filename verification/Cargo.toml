[package]
name = "rfc_index"
version = "0.1.0"
edition = "2021"
publish = false

[dependencies]
regex = "1"
roxmltree = "0.20"
rusqlite = { version = "0.32", features = ["bundled"] }
reqwest = { version = "0.12", default-features = false, features = ["blocking", "gzip", "rustls-tls"] }
serde = { version = "1", features = ["derive"] }
serde_json = "1"
thiserror = "2"
directories = "5"
clap = { version = "4", features = ["derive", "env"] }
anyhow = "1"
