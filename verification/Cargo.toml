[package]
name = "slowpoke_store"
version = "0.1.0"
edition = "2021"
publish = false

[dependencies]
url = "*"
sqlx = { version = "*", features = ["runtime-tokio", "sqlite"] }
tokio = { version = "*", features = ["rt-multi-thread", "macros", "time"] }
