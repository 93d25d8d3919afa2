[package]
name = "brace"
version = "0.1.0"
edition = "2021"
publish = false

[dependencies]
anyhow = "=1.0.104"
chrono = { version = "=0.4.45", features = ["serde"] }
clap = { version = "=4.6.7", features = ["derive"] }
comrak = { version = "=0.59.0", default-features = false }
ctrlc = "=3.5.2"
notify = "=8.2.1"
notify-debouncer-mini = "=0.7.0"
serde = { version = "=1.0.229", features = ["derive"] }
serde_yml = "=0.0.13"
syntect = { version = "=5.3.0", default-features = false, features = ["default-fancy"] }
tera = "=1.20.1"
tiny_http = "=0.12.0"
walkdir = "=2.5.0"
