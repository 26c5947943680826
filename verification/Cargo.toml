[package]
name = "asn_lookup"
version = "0.1.0"
edition = "2021"
publish = false

[dependencies]
ipnet = { version = "=2.12.2", features = ["serde"] }
serde = { version = "=1.0.229", features = ["derive"] }
tokio = { version = "=1.53.2", features = ["rt", "macros", "sync"] }
reqwest = "=0.12.28"
reqwest-middleware = "=0.4.2"
http-cache-reqwest = "=0.16.0"
clap = { version = "=4.6.7", features = ["derive"] }
