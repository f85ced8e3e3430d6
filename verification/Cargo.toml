[package]
name = "gptsovits-rs"
version = "0.1.0"
edition = "2021"
publish = false

[dependencies]
regex = "1.12.4"
tokenizers = "0.22.2"
anyhow = "1"
thiserror = "2.0.21"
serde = { version = "1", features = ["derive"] }
serde_json = "1"
toml = "0.8.23"
axum = "0.8.9"
tokio = { version = "1", features = ["full"] }
tower-http = { version = "0.6.11", features = ["cors", "trace"] }
utoipa = "5.4.0"
utoipa-scalar = { version = "0.3.0", features = ["axum"] }
utoipa-swagger-ui = { version = "9.0.2", features = ["axum"] }
clap = { version = "4", features = ["derive"] }
tracing = "0.1"
tracing-subscriber = { version = "0.3", features = ["env-filter"] }
hound = "3.5.1"
rubato = "0.16.2"
rustfft = "6.4.1"
ndarray = "0.17.2"
ort = "=2.0.0-rc.15"
rand = "0.8.8"
bytes = "1"
futures-util = "0.3"
