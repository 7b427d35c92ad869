[package]
name = "chat"
version = "0.1.0"
edition = "2021"
publish = false

[dependencies]
aes-gcm = "0.10"
axum = { version = "0.8", default-features = false, features = ["http1", "json", "tokio", "ws"] }
base64 = "0.22"
dashmap = "6"
futures-util = { version = "0.3", features = ["sink"] }
reqwest = { version = "0.13", default-features = false, features = ["json"] }
rusqlite = { version = "0.32", features = ["bundled"] }
serde = { version = "1", features = ["derive"] }
serde_json = "1"
sha2 = "0.10"
tauri = { version = "2", default-features = false }
tokio = { version = "1", features = ["macros", "net", "rt-multi-thread", "sync"] }
