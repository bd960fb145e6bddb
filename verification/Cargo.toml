[package]
name = "soma"
version = "0.1.0"
edition = "2021"
publish = false

[dependencies]
url = "2"
globset = "0.4"
tera = "1"
serde = { version = "1", features = ["derive"] }
serde_json = "1"
clap = { version = "4", features = ["derive"] }
clap_complete = "4"
tokio = { version = "1", features = ["full"] }
anyhow = "1"
comfy-table = "*"
inquire = "*"
notify = "*"
notify-debouncer-full = "*"
reqwest = { version = "*", default-features = false, features = ["rustls-tls"] }
zip = { version = "*", default-features = false, features = ["deflate"] }
