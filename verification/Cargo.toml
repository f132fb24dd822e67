[package]
name = "phi_kernel_tools"
version = "0.6.0"
edition = "2021"
publish = false

[dependencies]
agent-base = "=0.12.0"
agent-works = { version = "=0.12.0", features = ["multi_agent", "skill"] }
async-trait = "=0.1.92"
chrono = "=0.4.45"
ignore = "=0.4.34"
schemars = "=1.2.3"
serde = { version = "=1.0.229", features = ["derive"] }
serde_json = "=1.0.154"
tokio = { version = "=1.54.1", features = ["full"] }
tokio-util = "=0.7.20"
tracing = "=0.1.44"
uuid = { version = "=1.29.0", features = ["v4"] }
