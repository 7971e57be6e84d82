[package]
name = "kapplier"
version = "0.1.0"
edition = "2021"
publish = false

[dependencies]
anyhow = "*"
axum = "*"
clap = { version = "*", features = ["derive", "env"] }
ctrlc = "*"
k8s-openapi = { version = "=0.27.1", features = ["latest"] }
kube = "=3.1.0"
log = "*"
serde = "*"
serde_json = "*"
serde_yaml = "=0.9.34+deprecated"
simple_logger = "*"
tokio = { version = "*", features = ["full"] }
walkdir = "*"
