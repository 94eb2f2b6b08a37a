[package]
name = "codeexec"
version = "0.1.0"
edition = "2021"
publish = false

[dependencies]
nix = { version = "=0.31.3", features = ["signal", "process", "user"] }
sys-info = "=0.9.1"
serde = { version = "=1.0.229", features = ["derive"] }
serde_json = "=1.0.151"
tokio = { version = "=1.53.2", features = ["full"] }
axum = "=0.8.9"
lazy_static = "=1.5.1"
hf-hub = "=0.3.2"
parquet = "=60.0.0"
