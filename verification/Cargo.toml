[package]
name = "depth_book"
version = "0.1.0"
edition = "2021"
publish = false

[dependencies]
colored = "2"
futures-util = "0.3"
reqwest = "0.12"
serde = { version = "1", features = ["derive"] }
serde_json = "1"
tokio = { version = "1", features = ["macros", "net", "rt-multi-thread", "sync", "time"] }
tokio-tungstenite = { version = "0.24", features = ["native-tls"] }
