[package]
name = "rstify"
version = "0.1.0"
edition = "2021"
publish = false

[dependencies]
argon2 = "=0.6.0"
chrono = { version = "=0.4.45", default-features = false, features = ["clock", "std"] }
humantime = "=2.4.0"
jsonwebtoken = { version = "=11.1.0", features = ["rust_crypto"] }
serde = { version = "*", features = ["derive"] }
serde_json = "=1.0.151"
uuid = { version = "=1.27.0", features = ["v4"] }
axum = { version = "=0.8.9", features = ["ws", "multipart"] }
tokio = { version = "*", features = ["full"] }
tokio-util = "*"
tokio-stream = { version = "*", features = ["sync"] }
sqlx = { version = "=0.9.0", default-features = false, features = ["runtime-tokio", "sqlite", "derive"] }
reqwest = { version = "*", default-features = false }
tower-http = { version = "*", features = ["cors"] }
mime_guess = "*"
dotenvy = "*"
lettre = { version = "*", default-features = false, features = ["smtp-transport", "builder", "tokio1", "tokio1-rustls-tls"] }
