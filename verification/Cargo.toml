[package]
name = "maker_bot"
version = "0.1.0"
edition = "2021"
publish = false

[dependencies]
alloy = { version = "=1.8.3", default-features = false }
anyhow = "=1.0.104"
axum = { version = "=0.8.9", default-features = false, features = ["http1", "json", "tokio"] }
chrono = { version = "=0.4.45", default-features = false, features = ["clock", "std", "serde"] }
config = { version = "=0.14.1", default-features = false, features = ["toml"] }
dashmap = "=6.2.1"
dotenvy = "=0.15.7"
futures-util = { version = "=0.3.34", default-features = false, features = ["std", "sink"] }
parking_lot = "=0.12.5"
reqwest = { version = "=0.12.28", default-features = false, features = ["json", "rustls-tls"] }
rust_decimal = { version = "=1.43.0", default-features = false, features = ["std"] }
serde = { version = "=1.0.229", features = ["derive"] }
serde_json = "=1.0.154"
sqlx = { version = "=0.8.6", default-features = false, features = ["runtime-tokio", "postgres", "chrono", "json", "derive", "migrate"] }
thiserror = "=2.0.21"
tokio = { version = "=1.54.1", features = ["macros", "net", "rt-multi-thread", "signal", "sync", "time"] }
tokio-tungstenite = { version = "=0.24.0", features = ["rustls-tls-webpki-roots"] }
tracing = "=0.1.44"
tracing-subscriber = { version = "=0.3.23", features = ["env-filter", "json"] }
uuid = { version = "=1.29.0", default-features = false, features = ["std"] }
