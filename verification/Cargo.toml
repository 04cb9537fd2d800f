[package]
name = "orbweaver"
version = "0.1.0"
edition = "2021"
publish = false

[dependencies]
toml = "0.8"
serde = { version = "1", features = ["derive"] }
serde_json = "1"
petgraph = "0.6"
clap = { version = "4", features = ["derive"] }
anyhow = "1"
chrono = "0.4"
console = "0.15"
indicatif = "0.17"
git2 = "0.19"
rusqlite = { version = "0.31", features = ["bundled"] }
uuid = { version = "1", features = ["v4"] }
tempfile = "3"
thiserror = "1"
