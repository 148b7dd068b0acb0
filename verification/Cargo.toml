[package]
name = "media_scraper"
version = "0.1.0"
edition = "2021"
publish = false

[dependencies]
scraper = "*"
mime_guess = "2"
axum = "*"
lambda_http = "*"
serde = { version = "*", features = ["derive"] }
tera = { version = "*", default-features = false }
tokio = { version = "*", features = ["macros", "rt-multi-thread"] }
ureq = "2"
