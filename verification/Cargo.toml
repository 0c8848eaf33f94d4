[package]
name = "lesbin_api"
version = "0.1.0"
edition = "2021"
publish = false

[dependencies]
sha2 = "0.10"
hex = "0.4"
rand = "0.9"
uuid = { version = "1", features = ["v4"] }
chrono = "0.4"
anyhow = "1"
axum = "0.8"
axum-extra = { version = "0.10", features = ["typed-header"] }
bytesize = "*"
clap = { version = "4", features = ["derive", "env"] }
clap-duration = "*"
dotenvy = "0.15"
duration-human = "*"
serde = { version = "1", features = ["derive"] }
sqlx = { version = "0.8", default-features = false, features = ["runtime-tokio", "sqlite"] }
tokio = { version = "1", features = ["full"] }
tower-http = { version = "0.6", features = ["catch-panic", "normalize-path", "trace"] }
tracing = "0.1"
tracing-subscriber = { version = "0.3", features = ["env-filter"] }
