[package]
name = "swap_ingest"
version = "0.1.0"
edition = "2021"
publish = false

[dependencies]
chrono = "*"
serde = { version = "*", features = ["derive"] }
serde_json = "*"
reqwest = { version = "*", default-features = false, features = ["json", "rustls-tls"] }
tokio = { version = "*", features = ["full"] }
sqlx = { version = "*", default-features = false, features = ["runtime-tokio", "postgres", "macros"] }
dotenv = "*"
actix-web = "*"
actix-cors = "*"
