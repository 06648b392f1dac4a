[package]
name = "history_store"
version = "0.1.0"
edition = "2021"
publish = false

[dependencies]
actix-rt = "2"
actix-web = "4"
chrono = { version = "0.4", features = ["serde"] }
diesel = { version = "2", features = ["postgres", "r2d2", "chrono"] }
diesel_migrations = "2"
dotenv = "0.15"
env_logger = "*"
listenfd = "*"
serde = { version = "1", features = ["derive"] }
