[package]
name = "typst_writer"
version = "0.1.0"
edition = "2021"
publish = false

[dependencies]
typst = "=0.14.2"
typst-assets = { version = "=0.14.2", features = ["fonts"] }
serde = { version = "=1.0.229", features = ["derive"] }
serde_json = "=1.0.154"
directories = "=6.0.0"
ttf-parser = "=0.25.1"
anyhow = "=1.0.104"
url = "=2.5.8"
chrono = "=0.4.45"
fontdb = "=0.24.0"
notify = "8"
