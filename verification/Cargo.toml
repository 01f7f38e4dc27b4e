[package]
name = "upwork_rss"
version = "0.1.0"
edition = "2021"
publish = false

[dependencies]
lru = "*"
regex = "1"
rss = "2"
scraper = "*"
url = "2"
anyhow = "1"
clap = { version = "4", features = ["derive", "env"] }
ctrlc = "3"
dotenv = "*"
lettre = "*"
reqwest = "*"
rust_iso3166 = "*"
slog = "2"
slog-async = "2"
slog-term = "2"
tokio = { version = "1", features = ["macros", "rt-multi-thread", "time"] }
