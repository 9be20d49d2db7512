[package]
name = "lyys_panel"
version = "0.1.0"
edition = "2021"
publish = false

[dependencies]
anyhow = "1"
argon2 = "0.5"
axum = { version = "0.8", features = ["multipart"] }
jsonwebtoken = "9"
mime_guess = "2"
ort = { version = "2.0.0-rc.10", default-features = false, features = ["load-dynamic"] }
r2d2 = "0.8"
r2d2_sqlite = "0.25"
rand = "0.8"
regex = "1"
rusqlite = { version = "0.32", features = ["bundled"] }
rust-embed = "8"
serde = { version = "1", features = ["derive"] }
serde_json = "1"
sysinfo = "0.33"
time = "0.3"
tokenizers = { version = "0.21", default-features = false, features = ["onig"] }
tokio = { version = "1", features = ["full"] }
tower-http = { version = "0.6", features = ["compression-gzip", "trace"] }
tracing = "0.1"
tracing-subscriber = { version = "0.3", features = ["env-filter"] }
ureq = "2"
