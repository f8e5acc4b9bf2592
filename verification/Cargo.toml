[package]
name = "pechincha"
version = "0.1.0"
edition = "2021"
publish = false

[dependencies]
anyhow = "1"
async-trait = "0.1"
base64 = "=0.22.1"
chaser-oxide = "=0.2.4"
chrono = { version = "=0.4.45", features = ["serde"] }
clap = { version = "4", features = ["derive"] }
colored = "=3.1.1"
dirs = "=7.0.0"
futures = "0.3"
headless_chrome = { version = "=1.0.22", default-features = false }
libc = "0.2"
rand = "=0.10.3"
regex-lite = "=0.1.9"
rust_decimal = { version = "=1.43.0", features = ["serde"] }
rust_decimal_macros = "=1.40.0"
scraper = "=0.29.0"
serde = { version = "1", features = ["derive"] }
serde_json = "=1.0.154"
strsim = "=0.11.1"
thiserror = "2"
tokio = { version = "1", features = ["rt-multi-thread", "macros", "time", "sync", "net"] }
tokio-tungstenite = "=0.30.0"
toml = "=1.1.8"
tracing = "0.1"
tracing-subscriber = { version = "0.3", features = ["env-filter"] }
urlencoding = "=2.1.3"
zstd = "=0.13.4"
