[package]
name = "conduit"
version = "0.3.0"
edition = "2021"
publish = false

[dependencies]
anyhow = "1"
dirs = "5"
iced = { version = "=0.12.1", default-features = false, features = ["tokio"] }
pnet = "0.35"
serde = { version = "1", features = ["derive"] }
serde_json = "1"
tokio = { version = "1", features = ["full"] }
tracing = "0.1"
tracing-subscriber = { version = "0.3", features = ["env-filter"] }
uuid = { version = "1", features = ["v4"] }
