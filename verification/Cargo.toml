[package]
name = "glint"
version = "0.1.0"
edition = "2021"
publish = false

[dependencies]
url = "2"
rand = "0.9"
hex = "0.4"
sha2 = "0.10"
serde = { version = "1", features = ["derive"] }
serde_json = "1"
axum = "0.8"
tokio = { version = "1", features = ["rt-multi-thread", "macros", "time", "net", "sync"] }
tower = "0.5"
tracing = "0.1"
tracing-subscriber = { version = "0.3", features = ["env-filter", "fmt", "registry"] }
governor = "0.10"
sqlx = { version = "0.8", default-features = false, features = ["runtime-tokio", "postgres", "chrono"] }
chrono = { version = "0.4", features = ["serde"] }
reqwest = { version = "0.12", default-features = false, features = ["json", "rustls-tls"] }
ulid = "1"
time = { version = "0.3", features = ["formatting", "macros"] }
anyhow = "1"
thiserror = "2"
