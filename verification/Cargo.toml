[package]
name = "subtensor_sim"
version = "0.1.0"
edition = "2021"
publish = false

[dependencies]
hex = "=0.4.3"
clap = { version = "=4.6.7", features = ["derive"] }
tokio = { version = "=1.54.1", features = ["signal", "rt", "macros"] }
futures = "=0.3.34"
log = "=0.4.34"
env_logger = "=0.11.11"
sp-api = "=44.0.0"
sp-blockchain = "=47.0.0"
sp-consensus = "=0.50.0"
sp-core = "=43.0.0"
sp-inherents = "=44.0.0"
sp-runtime = "=49.0.0"

[dev-dependencies]
serde_json = { version = "=1.0.154", features = ["preserve_order"] }
