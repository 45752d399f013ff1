[package]
name = "playlist_sync"
version = "0.1.0"
edition = "2021"
publish = false

[dependencies]
anyhow = "1"
clap = { version = "4", features = ["derive"] }
env_logger = "*"
regex = "1"
reqwest = { version = "*", features = ["json"] }
rspotify = { version = "*", default-features = false, features = ["cli", "client-ureq", "ureq-rustls-tls"] }
serde = { version = "1", features = ["derive"] }
serde_json = "1"
tokio = { version = "1", features = ["macros", "rt-multi-thread"] }

[dev-dependencies]
levenshtein = "1"
