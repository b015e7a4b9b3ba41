[package]
name = "ix"
version = "0.1.0"
edition = "2021"
publish = false

[dependencies]
globset = "=0.4.21"
shell-escape = "=0.1.5"
crossterm = "=0.27.0"
indexmap = "=2.14.2"
serde = { version = "=1.0.229", features = ["derive"] }
serde_json = "=1.0.154"
clap = { version = "=4.6.7", features = ["derive"] }
ratatui = "=0.26.3"
git2 = { version = "=0.18.3", default-features = false }
ignore = "=0.4.34"
dirs = "=5.0.1"
netstat2 = "=0.11.2"
sysinfo = "=0.30.13"
bollard = "=0.16.1"
tokio = { version = "=1.54.1", features = ["rt"] }
thiserror = "=1.0.69"
