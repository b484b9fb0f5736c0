[package]
name = "braid_node"
version = "0.1.0"
edition = "2021"
publish = false

[dependencies]
quinn = "=0.10.2"
rustls = { version = "=0.21.12", features = ["dangerous_configuration"] }
rcgen = "=0.11.3"
tokio = { version = "=1.53.2", features = ["rt-multi-thread", "macros", "signal", "sync", "time"] }
async-channel = "=2.5.0"
clap = { version = "=4.6.7", features = ["derive"] }
toml = "=1.1.6"
log = "=0.4.34"
env_logger = "=0.11.11"
tracing = "=0.1.44"
tracing-subscriber = { version = "=0.3.23", features = ["env-filter"] }
serde = { version = "=1.0.229", features = ["derive"] }
