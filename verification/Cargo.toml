[package]
name = "riftbound_events"
version = "0.1.0"
edition = "2021"
publish = false

[dependencies]
anyhow = "1"
cached = "0.56"
clap = { version = "4", features = ["derive"] }
dotenvy = "0.15"
once_cell = "1"
poise = "=0.6.2"
regex = "=1.13.1"
reqwest = { version = "=0.12.28", default-features = false, features = ["rustls-tls", "charset", "http2"] }
serde = { version = "1", features = ["derive"] }
serde_json = "1"
tabwriter = "=1.4.1"
tokio = { version = "1", features = ["macros", "rt-multi-thread", "sync"] }
tracing = "0.1"
tracing-subscriber = "0.3"
url = "=2.5.8"
