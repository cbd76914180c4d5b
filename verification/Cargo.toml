[package]
name = "trigobot"
version = "0.1.0"
edition = "2021"
publish = false

[dependencies]
bincode = "1"
chrono = "0.4"
dotenv = "0.15"
eyre = "0.6"
futures = "0.3"
html2md = "0.2"
lazy_static = "1"
md5 = "0.7"
notify = "4"
rand = "0.8"
regex = "1"
reqwest = "0.11"
rss = "2"
serde = { version = "1", features = ["derive"] }
serde_json = "1"
serenity = "0.10"
tempfile = "3"
tokio = { version = "1", features = ["macros", "rt-multi-thread", "time", "sync"] }
tracing = "0.1"
tracing-subscriber = "0.3"
