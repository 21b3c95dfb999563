[package]
name = "quas-wex-exort"
version = "0.1.0"
edition = "2021"
publish = false

[dependencies]
base62 = "=2.2.6"
rand = "=0.10.3"
serde_json = "=1.0.154"
serde = { version = "=1.0.229", features = ["derive"] }
schemars = "=1.2.3"
rmcp = { version = "=1.8.0", features = ["server", "macros", "transport-streamable-http-server"] }
tokio = { version = "=1.54.1", features = ["full"] }
tokio-util = "=0.7.20"
axum = "=0.8.9"
http = "=1.5.0"
clap = { version = "=4.6.7", features = ["derive"] }
envconfig = "=0.11.1"
dotenv = "=0.15.0"
futures = "=0.3.34"
objectiveai-sdk = { version = "=2.2.16", features = ["lockfile"] }
