[package]
name = "twitter_sentiment"
version = "0.1.0"
edition = "2021"
publish = false

[dependencies]
askama = "0.11"
axum = "0.4"
color-eyre = "0.6"
config = "0.11"
derive_builder = "0.10"
dotenv = "0.15"
egg-mode = "0.16"
futures = "0.3"
poloto = "3"
rust-bert = "0.17"
serde = { version = "1", features = ["derive"] }
sqlx = { version = "0.5", default-features = false, features = ["postgres", "runtime-tokio-rustls", "migrate"] }
time = "0.3"
tokio = { version = "1", features = ["full"] }
tracing = "0.1"
tracing-subscriber = { version = "0.3", features = ["env-filter"] }
