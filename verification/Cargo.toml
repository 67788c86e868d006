[package]
name = "githops"
version = "0.1.0"
edition = "2021"
publish = false

[dependencies]
sha2 = "0.10"
anyhow = "1"
clap = { version = "4", features = ["derive"] }
clap_complete = "4"
colored = "2"
dirs = "5"
glob = "0.3"
serde = { version = "1", features = ["derive"] }
serde_json = "1"
serde_yaml = "0.9"
toml = "0.8"
ureq = { version = "2", default-features = false }
tokio = { version = "1", features = ["rt-multi-thread", "net", "time", "macros"] }
axum = { version = "0.7", features = ["ws"] }
schemars = "0.8"
