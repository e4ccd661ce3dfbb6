[package]
name = "awards"
version = "1.2.0"
edition = "2021"
publish = false

[dependencies]
regex = "=1.13.1"
strsim = "=0.11.1"
csv = "=1.4.0"
serde = { version = "=1.0.229", features = ["derive"] }
serde_json = "=1.0.154"
reqwest = { version = "=0.12.28", default-features = false, features = ["blocking", "json", "rustls-tls"] }
chrono = { version = "=0.4.45", default-features = false, features = ["clock", "std"] }
urlencoding = "=2.1.3"
dirs = "=5.0.1"
getrandom = "=0.2.17"
jsonwebtoken = "=9.3.1"
open = "=5.4.5"
clap = { version = "=4.6.7", features = ["derive"] }
anyhow = "=1.0.104"
thiserror = "=1.0.69"
ratatui = "0.29"
crossterm = "0.28"
tui-input = "0.11"
toml = "0.8"
