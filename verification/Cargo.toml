[package]
name = "report-rs"
version = "0.1.0"
edition = "2021"
publish = false

[dependencies]
krilla = "*"
qrcodegen = "1.8"
serde = { version = "1", features = ["derive"] }
serde_json = "1"
ttf-parser = "0.25"
