[package]
name = "beemon"
version = "0.1.0"
edition = "2021"
publish = false

[dependencies]
anyhow = "=1.0.104"
aya = "=0.14.0"
axum = { version = "=0.8.9", features = ["ws"] }
bytes = "=1.12.1"
futures-util = { version = "=0.3.34", features = ["sink"] }
libc = "=0.2.191"
nix = { version = "=0.31.3", features = ["resource", "net", "hostname", "sched"] }
procfs = "=0.18.0"
prost = "=0.14.4"
serde = { version = "=1.0.229", features = ["derive"] }
serde_json = "=1.0.154"
tokio = { version = "=1.54.1", features = ["full"] }
tokio-stream = { version = "=0.1.19", features = ["sync", "time"] }
tower-http = { version = "=0.7.1", features = ["cors", "fs"] }
tracing = "=0.1.44"
tracing-subscriber = { version = "=0.3.23", features = ["env-filter"] }
