[package]
name = "smtp_test_tool"
version = "0.1.0"
edition = "2021"
publish = false

[dependencies]
anyhow = "=1.0.104"
eframe = { version = "=0.37.0", default-features = false, features = ["x11", "default_fonts"] }
fontdb = "=0.24.0"
hickory-resolver = "=0.26.3"
serde = { version = "=1.0.229", features = ["derive"] }
sys-locale = "=0.3.2"
thiserror = "=2.0.21"
tokio = { version = "=1.54.1", features = ["rt", "net", "time"] }
tracing = "=0.1.44"
