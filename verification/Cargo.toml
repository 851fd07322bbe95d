[package]
name = "timings"
version = "0.1.0"
edition = "2021"
publish = false

[dependencies]
chrono = "*"
log = "*"
env_logger = "*"
clap = { version = "*", features = ["derive"] }
tokio = { version = "*", features = ["rt", "macros", "time", "sync"] }
sqlx = { version = "*", default-features = false, features = ["sqlite", "runtime-tokio"] }
