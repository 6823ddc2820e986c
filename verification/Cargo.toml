[package]
name = "pgnpg"
version = "0.1.0"
edition = "2021"
publish = false

[dependencies]
anyhow = "=1.0.104"
async-trait = "=0.1.92"
axum = "=0.7.9"
chrono = { version = "=0.4.45", features = ["serde"] }
envy = "=0.4.2"
itertools = "=0.12.1"
reqwest = { version = "=0.12.28", default-features = false }
sea-orm = { version = "=0.12.15", features = ["sqlx-sqlite", "runtime-tokio-rustls", "macros", "sea-orm-internal"] }
sea-orm-migration = { version = "=0.12.15", default-features = false, features = ["sqlx-sqlite", "runtime-tokio-rustls"] }
serde = { version = "=1.0.229", features = ["derive"] }
serde_json = "=1.0.154"
serde_with = "=3.24.0"
thiserror = "=1.0.69"
time = "=0.3.55"
tokio = { version = "=1.54.1", features = ["rt-multi-thread", "macros", "net"] }
tower-http = { version = "=0.5.2", features = ["compression-gzip", "fs"] }
tower-sessions = "=0.12.3"
tower-sessions-sqlx-store = { version = "=0.12.0", features = ["sqlite"] }
ulid = "=1.2.1"
valq = "=0.3.1"
