[package]
name = "kosmos"
version = "0.1.0"
edition = "2021"
publish = false

[dependencies]
anyhow = "=1.0.104"
async-std = { version = "=1.13.2", features = ["attributes"] }
base64 = "=0.13.1"
log = "=0.4.34"
rand = "=0.7.3"
rss = { version = "*", default-features = false }
scraper = { version = "*", default-features = false }
serde = { version = "=1.0.229", features = ["derive"] }
sled = "=0.34.7"
surf = { version = "=2.3.2", default-features = false, features = ["h1-client"] }
telegram_types = "=0.7.0"
thiserror = "=1.0.69"

[dev-dependencies]
bincode = "=1.3.3"
