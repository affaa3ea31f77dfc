[package]
name = "adana_http"
version = "0.1.0"
edition = "2021"
publish = false

[dependencies]
mime_guess = "*"
tiny_http = "*"
anyhow = "*"

[dev-dependencies]
serde_json = "*"
form_urlencoded = "*"
url = "*"
