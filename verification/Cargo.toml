[package]
name = "dufs"
version = "0.1.0"
edition = "2021"
publish = false

[dependencies]
alphanumeric-sort = "1"
anyhow = "1"
async_zip = { version = "0.0.15", default-features = false, features = ["deflate", "chrono", "tokio"] }
chardetng = "0.1"
chrono = "0.4"
content_inspector = "0.2"
form_urlencoded = "1"
futures = "0.3"
glob = "0.3"
headers = "0.3"
hyper = { version = "0.14", features = ["http1", "server", "tcp", "stream"] }
mime_guess = "2"
serde = { version = "1", features = ["derive"] }
serde_json = "1"
tokio = { version = "1", features = ["rt-multi-thread", "macros", "fs", "io-util"] }
tokio-util = { version = "0.7", features = ["io", "io-util", "compat"] }
uuid = { version = "1", features = ["v4"] }
walkdir = "2"
xml-rs = "0.8"
