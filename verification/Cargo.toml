[package]
name = "lid_core"
version = "0.2.0"
edition = "2021"
publish = false

[dependencies]
anyhow = "=1.0.104"
chrono = { version = "=0.4.45", features = ["serde"] }
clap = { version = "=4.6.7", features = ["derive"] }
dashmap = "=6.2.1"
ignore = "=0.4.34"
owo-colors = "=4.4.0"
petgraph = "=0.6.5"
pulldown-cmark = { version = "=0.12.2", default-features = false }
regex-syntax = "=0.8.11"
serde = { version = "=1.0.229", features = ["derive"] }
serde_json = "=1.0.154"
serde_yaml_ng = "=0.10.0"
thiserror = "=2.0.21"
tokio = { version = "=1.54.1", features = ["macros", "rt-multi-thread", "io-std", "sync"] }
tower-lsp = "=0.20.0"
tracing = "=0.1.44"
tracing-subscriber = { version = "=0.3.23", features = ["env-filter"] }
