[package]
name = "cewl"
version = "0.1.0"
edition = "2021"
publish = false

[dependencies]
anyhow = "1"
chromiumoxide = "*"
clap = { version = "4", features = ["derive"] }
ctrlc = "3"
digest_auth = "*"
encoding_rs = "0.8"
futures = "0.3"
html-escape = "0.2"
indexmap = "2"
mime_guess = "2"
psl = "2"
regex = "1"
regex-syntax = "0.8"
reqwest = { version = "0.12", default-features = false, features = ["rustls-tls"] }
roxmltree = "*"
scraper = "*"
tokio = { version = "1", features = ["full"] }
url = "2"
zip = { version = "*", default-features = false, features = ["deflate"] }

[dev-dependencies]
tempfile = "3"
