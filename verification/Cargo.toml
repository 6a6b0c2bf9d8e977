[package]
name = "ephemeral_storage_setup"
version = "0.1.0"
edition = "2021"
publish = false

[dependencies]
clap = { version = "*", features = ["derive", "env"] }
serde = { version = "*", features = ["derive"] }
serde_json = "*"
tokio = { version = "*", features = ["rt", "net", "time", "macros"] }
kube = "*"
k8s-openapi = { version = "*", features = ["latest"] }
tracing = "*"
