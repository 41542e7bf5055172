[package]
name = "owntrack_rs"
version = "0.1.0"
edition = "2021"
publish = false

[dependencies]
actix-cors = "*"
actix-web = "4"
actix-web-rust-embed-responder = { version = "*", default-features = false, features = ["support-rust-embed-for-web"] }
anyhow = "1"
dotenvy = "*"
gethostname = "*"
log = "0.4"
prost = "*"
rumqttc = { version = "*", default-features = false, features = ["url"] }
rust-embed-for-web = "*"
serde = { version = "1", features = ["derive"] }
serde_json = "1"
sqlx = { version = "*", default-features = false, features = ["any", "sqlite", "postgres", "runtime-tokio", "migrate", "derive"] }
tokio = { version = "1", features = ["macros", "rt-multi-thread", "time"] }
