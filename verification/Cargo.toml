[package]
name = "resolver_plugins"
version = "0.1.0"
edition = "2021"
publish = false

[dependencies]
ahash = "0.8"
async-trait = "0.1"
base64 = "0.22"
bytes = "1"
dashmap = "6"
futures = "0.3"
http = "1"
rand = "*"
ripset = "*"
rusqlite = { version = "*", features = ["bundled"] }
serde = { version = "1", features = ["derive"] }
serde_json = "1"
serde_yaml_ng = "0.10"
tokio = { version = "1", features = ["full"] }
tracing = "0.1"
wincode = { version = "*", features = ["derive"] }
