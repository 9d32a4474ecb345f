[package]
name = "apitap"
version = "0.1.0"
edition = "2021"
publish = false

[dependencies]
chrono = "*"
url = "*"
clap = { version = "*", features = ["derive"] }
minijinja = { version = "*", features = ["loader"] }
walkdir = "*"
serde = { version = "*", features = ["derive"] }
serde_json = "*"
serde_yaml = "*"
reqwest = { version = "*", default-features = false, features = ["json", "rustls-tls"] }
tokio = { version = "*", features = ["rt-multi-thread", "macros", "signal", "time"] }
tokio-cron-scheduler = "*"
sqlx = { version = "*", default-features = false, features = ["postgres", "runtime-tokio"] }
futures = "*"
tracing = "*"
tracing-subscriber = { version = "*", features = ["env-filter", "json", "fmt"] }
tracing-error = "*"
