[package]
name = "smark"
version = "0.1.0"
edition = "2021"
publish = false

[dependencies]
pulldown-cmark = "=0.9.6"
uuid = { version = "=1.27.0", features = ["v4"] }
chrono = "=0.4.45"
glob = "=0.3.4"
tantivy = "=0.17.0"
