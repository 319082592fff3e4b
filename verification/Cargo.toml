[package]
name = "scratchback"
version = "0.1.0"
edition = "2021"
publish = false

[dependencies]
serde = { version = "*", features = ["derive"] }
serde_json = "*"
ijson = "*"
thiserror = "*"
tokio = { version = "*", features = ["net", "sync"] }
tokio-tungstenite = "*"
futures-util = "*"
reqwest = { version = "*", default-features = false }
