[package]
name = "stock_timeseries"
version = "0.1.0"
edition = "2021"
publish = false

[dependencies]
chrono = { version = "0.4", default-features = false, features = ["std"] }
bigdecimal = "0.4"
sqlx = { version = "0.8", default-features = false, features = ["postgres", "runtime-tokio", "chrono", "bigdecimal"] }
tokio = { version = "1", features = ["full"] }
axum = "0.7"
serde = { version = "1", features = ["derive"] }
dotenv = "0.15"
tracing = "0.1"
tracing-subscriber = { version = "0.3", features = ["env-filter"] }
