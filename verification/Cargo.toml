[package]
name = "kaidadb"
version = "0.1.0"
edition = "2021"
publish = false

[dependencies]
sha2 = "0.10"
hex = "0.4"
crc32fast = "1"
lru = "*"
rand = "0.8"
serde = { version = "1", features = ["derive"] }
serde_json = "1"
bytes = "1"
memmap2 = "*"
parking_lot = "*"
tokio = { version = "1", features = ["full"] }
tokio-stream = "*"
axum = "0.7"
tower-http = { version = "*", features = ["cors"] }
percent-encoding = "2"
tracing = "0.1"
tracing-subscriber = "0.3"
clap = { version = "4", features = ["derive"] }
figment = { version = "0.10", features = ["toml", "env"] }
thiserror = "1"

[dev-dependencies]
