[package]
name = "windmill-worker"
version = "0.1.0"
edition = "2021"
publish = false

[dependencies]
hex = "*"
chrono = "*"
serde = { version = "*", features = ["derive"] }
serde_json = "*"
uuid = { version = "*", features = ["v4"] }
nix = { version = "*", features = ["signal", "process"] }
futures = "*"
tokio = { version = "*", features = ["full"] }
sqlx = { version = "*", default-features = false, features = ["runtime-tokio", "postgres"] }
