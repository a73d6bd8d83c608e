[package]
name = "signal_hub"
version = "0.1.0"
edition = "2021"
publish = false

[dependencies]
axum = { version = "*", features = ["ws"] }
base64 = "*"
bcrypt = "*"
bb8 = "*"
bb8-redis = "*"
chrono = "*"
futures-util = "*"
rand = "*"
redis = "*"
serde = { version = "*", features = ["derive"] }
serde_json = "*"
sqlx = { version = "*", default-features = false, features = ["runtime-tokio", "postgres", "uuid"] }
tokio = { version = "*", features = ["macros", "rt-multi-thread", "sync", "net", "time"] }
uuid = { version = "*", features = ["v4"] }
