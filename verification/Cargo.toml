[package]
name = "d9cker"
version = "0.1.0"
edition = "2021"
publish = false

[dependencies]
anyhow = "1"
bollard = { version = "*", features = ["ssh"] }
crossterm = { version = "0.28", features = ["event-stream"] }
futures = "0.3"
libc = "0.2"
ratatui = "0.29"
serde = { version = "1", features = ["derive"] }
serde_json = "1"
tokio = { version = "1", features = ["full"] }
