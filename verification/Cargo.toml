[package]
name = "infercache"
version = "0.1.0"
edition = "2021"
publish = false

[dependencies]
async-trait = "=0.1.92"
axum = "=0.7.9"
candle-core = { version = "=0.8.4", default-features = false }
candle-nn = { version = "=0.8.4", default-features = false }
candle-transformers = { version = "=0.8.4", default-features = false }
dashmap = "=6.2.1"
futures-util = "=0.3.34"
hex = "=0.4.3"
hf-hub = { version = "0.4", default-features = false, features = ["rustls-tls", "ureq"] }
lazy_static = "=1.5.1"
parking_lot = "=0.12.5"
prometheus = { version = "=0.13.4", default-features = false }
qdrant-client = { version = "=1.20.0", default-features = false }
reqwest = { version = "=0.12.28", default-features = false, features = ["json", "stream", "rustls-tls"] }
serde = { version = "=1.0.229", features = ["derive"] }
serde_json = "=1.0.154"
sha2 = "=0.10.9"
sysinfo = { version = "=0.30.13", default-features = false }
tokenizers = { version = "0.22", default-features = false, features = ["fancy-regex"] }
tokio = { version = "=1.54.1", features = ["macros", "net", "rt-multi-thread", "sync", "time"] }
tokio-stream = { version = "=0.1.19", features = ["sync"] }
tower-http = { version = "=0.6.11", features = ["cors", "trace"] }
tracing = "=0.1.44"
tracing-subscriber = { version = "=0.3.23", features = ["env-filter"] }
