[package]
name = "qrush-engine"
version = "0.6.0"
edition = "2021"
publish = false

[dependencies]
chrono = "0.4"
chrono-tz = "0.10"
base64 = "0.22"
anyhow = "1"
async-trait = "0.1"
actix-web = { version = "4", default-features = false, features = ["macros"] }
tokio = { version = "1", features = ["full"] }
redis = { version = "0.27", features = ["tokio-comp"] }
serde = { version = "1", features = ["derive"] }
serde_json = "1"
tera = { version = "1", default-features = false }
csv = "1"
nanoid = "0.4"
once_cell = "1"
futures = "0.3"
futures-util = "0.3"
clap = { version = "4", features = ["derive", "env"] }
dotenvy = "0.15"
tracing = "0.1"
tracing-subscriber = { version = "0.3", features = ["env-filter"] }
