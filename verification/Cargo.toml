[package]
name = "keyzen"
version = "0.1.0"
edition = "2021"
publish = false

[dependencies]
rand = "*"
chrono = "*"
serde = { version = "*", features = ["derive"] }
ron = "*"
rusqlite = { version = "*", features = ["bundled"] }
dirs = "*"
anyhow = "*"
thiserror = "*"
notify = "*"
rust-embed = "*"
log = "*"
