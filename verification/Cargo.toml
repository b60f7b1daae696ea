[package]
name = "deepseeker"
version = "0.1.0"
edition = "2021"
publish = false

[dependencies]
pulldown-cmark = { version = "=0.10.3", default-features = false }
sha2 = "=0.10.9"
hex = "=0.4.3"
chrono = { version = "=0.4.45", default-features = false, features = ["clock", "std"] }
serde = { version = "=1.0.229", features = ["derive"] }
serde_json = "=1.0.154"
rusqlite = { version = "=0.40.2", features = ["bundled"] }
walkdir = "=2.5.0"
notify = "=6.1.1"
anyhow = "=1.0.104"
log = "=0.4.34"
pdf-extract = "*"
