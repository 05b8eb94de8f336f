[package]
name = "poster"
version = "0.1.0"
edition = "2021"
publish = false

[dependencies]
base64 = "*"
fastrand = "2"
jsonpath_lib = "0.3"
serde = { version = "1", features = ["derive"] }
serde_json = "1"
chrono = "0.4"
rusqlite = { version = "*", features = ["bundled"] }
tokio = { version = "1", features = ["rt-multi-thread", "sync", "time", "macros"] }
reqwest = { version = "0.13", default-features = false, features = ["rustls", "query", "form", "multipart"] }
