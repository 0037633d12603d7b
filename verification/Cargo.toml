[package]
name = "wilayah"
version = "0.5.0"
edition = "2021"
publish = false

[dependencies]
sha2 = "0.10"
rusqlite = { version = "*", features = ["bundled", "functions", "serialize"] }
serde = { version = "1", features = ["derive"] }
serde_json = "1"
ureq = "2"
