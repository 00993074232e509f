[package]
name = "bsl_context"
version = "0.3.1"
edition = "2021"
publish = false

[dependencies]
byteorder = "=1.5.0"
scraper = "=0.23.1"
ego-tree = "=0.10.0"
zip = { version = "=9.2.2", default-features = false, features = ["deflate"] }
serde = { version = "=1.0.229", features = ["derive"] }
serde_json = "=1.0.154"
schemars = "=1.2.3"
toml = "=0.8.23"
tokio = { version = "=1.54.1", features = ["full"] }
axum = "=0.8.9"
rmcp = { version = "=1.8.0", features = ["server", "macros", "transport-streamable-http-server"] }
clap = { version = "=4.6.7", features = ["derive"] }
anyhow = "=1.0.104"
tracing = "=0.1.44"
tracing-subscriber = { version = "=0.3.23", features = ["env-filter"] }
tracing-appender = "=0.2.5"
sysinfo = "=0.35.2"
