[package]
name = "onyx"
version = "0.1.0"
edition = "2021"
publish = false

[dependencies]
anyhow = "1"
chrono = "0.4"
clap = { version = "4", features = ["derive"] }
csv = "1"
goose = "*"
rand = "0.9"
reqwest = { version = "*", features = ["json", "multipart"] }
serde = { version = "1", features = ["derive"] }
tokio = { version = "1", features = ["macros", "rt-multi-thread", "time", "sync"] }
toml = "*"
tracing = "0.1"
tracing-subscriber = "0.3"
