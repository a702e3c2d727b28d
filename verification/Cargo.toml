[package]
name = "agent_skills"
version = "0.1.0"
edition = "2021"
publish = false

[dependencies]
anyhow = "=1.0.104"
axum = "=0.8.9"
clap = { version = "=4.6.7", features = ["derive"] }
gray_matter = "=0.3.2"
octocrab = "=0.47.1"
rmcp = { version = "=2.2.0", features = ["server", "macros", "elicitation", "transport-io", "transport-streamable-http-server"] }
serde = { version = "=1.0.229", features = ["derive"] }
serde_json = "=1.0.154"
thiserror = "=2.0.21"
toasty = "=0.11.0"
tokio = { version = "=1.54.1", features = ["full"] }
tokio-util = "=0.7.20"
tracing = "=0.1.44"
tracing-subscriber = { version = "=0.3.23", features = ["env-filter"] }
uuid = "=1.29.1"
walkdir = "=2.5.0"
zip = "=9.2.2"
