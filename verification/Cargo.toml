[package]
name = "mev_africa"
version = "0.1.0"
edition = "2021"
publish = false

[dependencies]
hex = "*"
anyhow = "*"
async-trait = "*"
axum = "*"
chrono = "*"
clap = { version = "*", features = ["derive"] }
csv = "*"
prometheus = "*"
reqwest = { version = "*", default-features = false, features = ["json"] }
serde = { version = "*", features = ["derive"] }
serde_json = "*"
sqlx = { version = "*", default-features = false, features = ["runtime-tokio", "sqlite", "macros"] }
thiserror = "*"
tokio = { version = "*", features = ["macros", "rt-multi-thread", "time", "net"] }
tracing = "*"
tracing-subscriber = { version = "*", features = ["env-filter", "fmt", "json"] }
