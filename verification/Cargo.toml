[package]
name = "bazaar"
version = "0.1.0"
edition = "2021"
publish = false

[dependencies]
async-trait = "0.1"
chrono = "0.4"
futures-util = "0.3"
log = "0.4"
rust_decimal = "1"
sqlx = { version = "0.7", default-features = false, features = ["runtime-tokio", "sqlite", "postgres", "uuid", "chrono", "rust_decimal"] }
thiserror = "1"
tokio = { version = "1", default-features = false, features = ["rt", "sync", "time"] }
uuid = { version = "1", features = ["v4"] }
