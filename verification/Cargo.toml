[package]
name = "annas_kobo"
version = "0.1.0"
edition = "2021"
publish = false

[dependencies]
form_urlencoded = "1"
html-escape = "0.2"
kepub-rs = "*"
log = "0.4"
regex = "1"
scraper = "*"
serde = { version = "1", features = ["derive"] }
serde_json = "1"
tiny_http = "0.12"
ureq = "3"
