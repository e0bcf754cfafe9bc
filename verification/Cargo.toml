[package]
name = "website_stalker"
version = "0.1.0"
edition = "2021"
publish = false

[dependencies]
ammonia = "=4.2.4"
anyhow = "=1.0.104"
chrono = "=0.4.45"
clap = { version = "=4.6.7", features = ["derive", "env"] }
ego-tree = "=0.10.0"
html2md = "=0.2.17"
html5ever = "=0.29.1"
kuchiki = "=0.8.1"
lazy-regex = "=3.6.2"
mime2ext = "=0.1.54"
mustache = "=0.9.0"
once_cell = "=1.21.4"
pling = { version = "=0.5.0", features = ["clap", "reqwest"] }
regex = "=1.13.1"
reqwest = { version = "=0.12.28", default-features = false, features = ["rustls-tls", "gzip", "brotli", "deflate", "zstd"] }
rss = { version = "=2.1.2", features = ["validation"] }
schemars = "=0.8.22"
scraper = "=0.22.0"
serde = { version = "=1.0.229", features = ["derive"] }
serde_json = "=1.0.154"
serde_yaml = "=0.9.34"
tokio = { version = "=1.54.1", features = ["macros", "rt-multi-thread", "sync", "time"] }
url = "=2.5.8"

[dev-dependencies]
tempfile = "=3.27.0"
