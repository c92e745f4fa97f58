[package]
name = "musica"
version = "0.1.0"
edition = "2021"
publish = false

[dependencies]
anyhow = "*"
apalis = { version = "*", features = ["limit"] }
apalis-sql = { version = "*", features = ["sqlite"] }
futures = "*"
lazy_static = "*"
sea-orm = { version = "*", default-features = false, features = ["macros", "with-json", "sqlx-sqlite", "runtime-tokio-rustls"] }
serde = { version = "*", features = ["derive"] }
serde_json = "*"
tokio = { version = "*", features = ["macros", "rt-multi-thread", "sync"] }
walkdir = "*"
