[package]
name = "termusic_core"
version = "0.1.0"
edition = "2021"
publish = false

[dependencies]
alphanumeric-sort = "*"
anyhow = "1"
bytes = "1"
chrono = { version = "0.4", default-features = false, features = ["std", "clock"] }
opml = "*"
percent-encoding = "2"
pinyin = "*"
regex = "1"
reqwest = { version = "*", default-features = false }
rfc822_sanitizer = "*"
rss = { version = "2", default-features = false }
rusqlite = { version = "*", features = ["bundled"] }
sanitize-filename = "*"
serde_json = "1"
tokio = { version = "1", features = ["rt-multi-thread", "sync"] }
walkdir = "2"
wildmatch = "2"
