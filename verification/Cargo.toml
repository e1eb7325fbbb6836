[package]
name = "fmhy_downloader"
version = "0.1.0"
edition = "2021"
publish = false

[dependencies]
url = "2"
rand = "0.9"
base64 = "0.22"
reqwest = { version = "0.12", default-features = false, features = ["json", "blocking"] }
serde = { version = "1", features = ["derive"] }
serde_json = "1"
serde_url_params = "0.2"
thiserror = "2"
tokio = { version = "1", features = ["full"] }
axum = "0.8"
tower-http = { version = "0.6", features = ["fs", "set-header"] }
chrono = { version = "0.4", features = ["serde"] }
futures = "0.3"
async-trait = "0.1"
chromiumoxide = "0.7"
