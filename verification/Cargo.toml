[package]
name = "flashback"
version = "0.1.0"
edition = "2021"
publish = false

[dependencies]
uuid = { version = "*", features = ["v4"] }
walkdir = "*"
dirs = "*"
chrono = "*"
rayon = "*"
serde = { version = "*", features = ["derive"] }
serde_json = "*"
rusqlite = { version = "*", features = ["bundled"] }
git2 = { version = "*", default-features = false }
