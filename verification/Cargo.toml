[package]
name = "ldapeditor"
version = "0.1.0"
edition = "2021"
publish = false

[dependencies]
fuzzy-matcher = "=0.3.7"
anyhow = "=1.0.104"
base64 = "=0.22.1"
clap = { version = "=4.6.7", features = ["derive"] }
crossterm = { version = "=0.28.1", features = ["event-stream"] }
ratatui = "=0.29.0"
ldap3 = { version = "=0.11.5", default-features = false, features = ["tls-rustls"] }
rpassword = "=7.5.4"
sys-locale = "0.3"
tokio = { version = "=1.54.1", features = ["full"] }
tokio-stream = "=0.1.19"
zeroize = "=1.9.1"
