[package]
name = "discord-llm-bot"
version = "0.1.0"
edition = "2021"
publish = false

[dependencies]
md5 = "0.7"
urlencoding = "2"
regex = "1"
serde_json = "1"
rand = "0.8"
serde = { version = "1", features = ["derive"] }
base64 = "0.22"
log = "0.4"
env_logger = "0.11"
dotenv = "0.15"
thiserror = "1"
tokio = { version = "1", features = ["full"] }
reqwest = { version = "0.12", default-features = false, features = ["json", "multipart", "rustls-tls"] }
id3 = "1"
minimp3 = "0.5"
mp3lame-encoder = "0.1"
hound = "3"
uuid = { version = "1", features = ["v4"] }
chrono = "0.4"
sqlx = { version = "0.8", default-features = false, features = ["runtime-tokio", "sqlite"] }
axum = "0.7"
serenity = { version = "0.12", default-features = false, features = ["builder", "cache", "client", "gateway", "http", "model", "utils", "rustls_backend", "chrono"] }
poise = "0.6"
image = { version = "0.25", default-features = false, features = ["png", "jpeg"] }
sysinfo = { version = "0.30", default-features = false }
async-trait = "0.1"
pitch_shift = "1"
