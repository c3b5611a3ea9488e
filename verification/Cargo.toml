[package]
name = "translingo"
version = "0.1.0"
edition = "2021"
publish = false

[dependencies]
serde_json = "1"
sha2 = "0.10"
serde = { version = "1", features = ["derive"] }
chrono = "0.4"
walkdir = "2"
zip = { version = "*", default-features = false, features = ["deflate"] }
reqwest = { version = "*", default-features = false, features = ["blocking", "json"] }
