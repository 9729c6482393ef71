[package]
name = "event_import"
version = "0.1.0"
edition = "2021"
publish = false

[dependencies]
chrono = "*"
csv-async = "*"
dotenvy = "*"
futures = "*"
sqlx = { version = "*", default-features = false, features = ["runtime-tokio", "tls-rustls", "postgres", "chrono"] }
tokio = { version = "*", features = ["macros", "rt-multi-thread", "fs"] }
