[package]
name = "load_balancer"
version = "0.1.0"
edition = "2021"
publish = false

[dependencies]
tokio = { version = "*", features = ["full"] }
futures = "*"
tracing = "*"
tracing-subscriber = { version = "*", features = ["env-filter"] }
async-trait = "*"
axum = "*"
clap = { version = "*", features = ["derive"] }
