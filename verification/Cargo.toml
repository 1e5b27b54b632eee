[package]
name = "untroche"
version = "0.1.0"
edition = "2021"
publish = false

[dependencies]
regex = "1"
rand = "*"
base64 = "0.22"
chrono = "0.4"
nanoid = "0.4"
uuid = { version = "1", features = ["v4"] }
argon2 = "0.5"
rkyv = "0.8"
actix-web = "4"
actix-session = { version = "*", features = ["cookie-session"] }
tera = "1"
serde = { version = "1", features = ["derive"] }
serde_json = "1"
sqlx = { version = "0.8", default-features = false, features = ["sqlite", "runtime-tokio"] }
tokio = { version = "1", features = ["sync", "rt", "macros"] }
tokio-stream = { version = "0.1", features = ["sync"] }
log = "0.4"
env_logger = "*"
reqwest = { version = "*", default-features = false, features = ["json"] }
minify-html = "*"
