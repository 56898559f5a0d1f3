[package]
name = "noteutil"
version = "0.1.0"
edition = "2021"
publish = false

[dependencies]
anyhow = "*"
axum = "0.6"
chrono = "0.4"
clap = { version = "4", features = ["derive"] }
futures = "*"
log = "*"
markdown = "*"
mime_guess = "*"
pathdiff = "*"
rayon = "*"
serde = { version = "1", features = ["derive"] }
tera = "1"
tokio = { version = "1", features = ["full"] }
tokio-util = { version = "*", features = ["io"] }
toml = "*"
tower-lsp = "*"
walkdir = "*"
