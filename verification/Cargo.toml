[package]
name = "grid_search_desktop"
version = "0.1.0"
edition = "2021"
publish = false

[dependencies]
url = "2"
eff-wordlist = "1"
chrono = "0.4"
serde = { version = "1", features = ["derive"] }
serde_json = "1"
reqwest = { version = "0.12", default-features = false, features = ["blocking", "json"] }
