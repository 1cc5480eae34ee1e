[package]
name = "mirthbr"
version = "0.1.0"
edition = "2021"
publish = false

[dependencies]
anyhow = "*"
axum = { version = "*", features = ["ws"] }
axum-server = { version = "*", features = ["tls-rustls"] }
base64 = "*"
chrono = "*"
futures = "*"
glob = "*"
mlua = { version = "*", features = ["lua54", "vendored", "serialize"] }
reqwest = { version = "*", default-features = false, features = ["rustls-tls"] }
rustls-pemfile = "*"
serde = { version = "*", features = ["derive"] }
serde_json = "*"
sqlx = { version = "*", default-features = false, features = ["runtime-tokio", "sqlite", "any", "chrono"] }
thiserror = "*"
tokio = { version = "*", features = ["full"] }
tokio-rustls = "*"
tower-http = { version = "*", features = ["cors", "limit"] }
tracing = "*"
tracing-subscriber = { version = "*", features = ["env-filter"] }
url = "*"
uuid = { version = "*", features = ["serde", "v4"] }
