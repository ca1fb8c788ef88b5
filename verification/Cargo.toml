[package]
name = "fastmail-cli"
version = "0.1.0"
edition = "2021"
publish = false

[dependencies]
chrono = "0.4"
uuid = { version = "1", features = ["v4"] }
roxmltree = "0.20"
hmac = "0.12"
sha2 = "0.10"
rand_core = { version = "0.9", features = ["os_rng"] }
base64 = "0.22"
serde = { version = "1", features = ["derive"] }
serde_json = "1"
toml = "0.8"
dirs = "6"
secrecy = "0.10"
anyhow = "1"
clap = { version = "4", features = ["derive"] }
clap_complete = "4"
tokio = { version = "1", features = ["full"] }
futures = "0.3"
reqwest = { version = "0.12", default-features = false, features = ["rustls-tls"] }
tracing = "0.1"
tracing-subscriber = { version = "0.3", features = ["env-filter"] }
async-graphql = "7"
rmcp = { version = "0.8", features = ["server", "transport-io"] }
