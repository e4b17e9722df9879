[package]
name = "reminders"
version = "0.1.0"
edition = "2021"
publish = false

[dependencies]
time = { version = "0.3", features = ["formatting", "macros"] }
chrono = "0.4"
anyhow = "1"
dotenvy = "0.15"
tokio = { version = "1", features = ["rt-multi-thread", "macros", "sync", "time"] }
serenity = { version = "0.12", default-features = false, features = ["builder", "client", "gateway", "http", "model", "utils", "rustls_backend"] }
sqlx = { version = "0.8", default-features = false, features = ["postgres", "runtime-tokio", "time"] }
