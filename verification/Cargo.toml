[package]
name = "astrax"
version = "0.1.0"
edition = "2021"
publish = false

[dependencies]
serde = { version = "1", features = ["derive"] }
serde_json = "1"
tokio = { version = "1", features = ["macros", "rt-multi-thread", "sync", "net"] }
axum = "0.8"
sqlx = { version = "0.8", default-features = false, features = ["runtime-tokio", "postgres"] }
dotenvy = "0.15"
reqwest = { version = "0.12", default-features = false, features = ["json"] }
anyhow = "1"
