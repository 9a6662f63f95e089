[package]
name = "practice"
version = "0.1.0"
edition = "2021"
publish = false

[dependencies]
anyhow = "1"
async-trait = "0.1"
base64 = "0.13"
bitflags = "1"
bytes = "1"
clap = "2"
colored = "2"
dashmap = "5"
flate2 = "1"
futures = "0.3"
glob = "0.3"
http = "0.2"
jsonxf = "1"
lru = "0.6"
percent-encoding = "2"
prost = "0.9"
rand = "0.8"
regex = "1"
reqwest = { version = "0.11", default-features = false }
serde = { version = "1", features = ["derive"] }
serde_json = "1"
sqlparser = "0.9"
tokio = { version = "1", features = ["full"] }
tokio-util = { version = "0.6", features = ["codec"] }
tracing = "0.1"
tracing-subscriber = "0.3"
