[package]
name = "cardgames"
version = "0.1.0"
edition = "2021"
publish = false

[dependencies]
base64 = "0.13"
bincode = "1.3"
fraction = { version = "0.15", default-features = false }
git-version = "0.3"
itertools = "0.10"
pct-str = "1"
rand = "0.8"
serde = { version = "1", features = ["derive"] }
serde_json = "1"
telegram-bot-raw = "*"
ulid = "1"
ureq = "1"
