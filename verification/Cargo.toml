[package]
name = "chat_server"
version = "0.1.0"
edition = "2021"
publish = false

[dependencies]
bcrypt = "=0.19.3"
jsonwebtoken = { version = "=11.1.0", features = ["rust_crypto"] }
serde = { version = "=1.0.229", features = ["derive"] }
serde_json = "=1.0.151"
tokio = { version = "=1.53.2", features = ["rt", "rt-multi-thread", "macros", "sync", "net", "io-util", "time", "signal"] }
rusqlite = { version = "=0.40.2", features = ["bundled"] }
chrono = "=0.4.45"
dotenvy = "=0.15.7"
futures = "=0.3.34"
