[package]
name = "lib_common"
version = "0.1.0"
edition = "2021"
publish = false

[dependencies]
quick-xml = "=0.42.0"
chrono = "=0.4.45"
cron = "=0.17.0"
escaping = "=0.2.3"
serde_json = "=1.0.154"
sha2 = "=0.11.1"
base64 = "=0.23.1"
html-to-markdown-rs = "=3.19.1"
serde = { version = "=1.0.229", features = ["derive"] }
tokio = { version = "=1.54.1", features = ["sync", "time", "rt", "macros", "fs"] }
futures = "=0.3.34"
async-stream = "=0.3.6"
pin-project-lite = "=0.2.17"
reqwest = "=0.13.5"
rss = { version = "=2.1.2", features = ["with-serde"] }
atom_syndication = { version = "=0.12.10", features = ["with-serde"] }
thiserror = "=2.0.21"
anyhow = "=1.0.104"
smol_str = "=0.3.7"
image = { version = "=0.25.10", default-features = false, features = ["png", "jpeg", "gif", "webp"] }
sysinfo = { version = "=0.40.1", default-features = false, features = ["system"] }
toml = "=1.1.8"
dirs = "=7.0.0"
serde_with = "*"
