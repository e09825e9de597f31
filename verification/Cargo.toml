[package]
name = "hawk_pack"
version = "0.1.0"
edition = "2021"
publish = false

[dependencies]
aes-prng = "=0.2.1"
rand = "=0.8.8"
serde = { version = "=1.0.229", features = ["derive"] }
serde_json = "=1.0.154"
sqlx = { version = "=0.8.6", default-features = false, features = ["runtime-tokio", "postgres", "json", "migrate"] }
tokio = { version = "=1.54.1", features = ["rt-multi-thread", "sync", "fs", "io-util", "macros"] }
tokio-stream = "=0.1.19"
futures = "=0.3.34"
eyre = "=0.6.14"
dotenvy = "=0.15.7"
