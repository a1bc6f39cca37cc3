[package]
name = "odoo_mailer"
version = "0.1.0"
edition = "2021"
publish = false

[dependencies]
anyhow = "1"
argh = "0.1"
bufstream = "0.1"
serde = { version = "1", features = ["derive"] }
serde_yaml = "0.8"
tiny_http = "0.12"
ureq = "1"
