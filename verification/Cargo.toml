[package]
name = "job_matching"
version = "0.1.0"
edition = "2021"
publish = false

[dependencies]
chrono = { version = "=0.4.45", features = ["serde"] }
serde = { version = "=1.0.229", features = ["derive"] }
serde_json = "=1.0.151"
log = "=0.4.34"
simple_logger = "=5.2.0"
tokio = { version = "=1.53.2", features = ["rt-multi-thread", "macros"] }
warp = "=0.3.7"
reqwest = { version = "=0.13.5", default-features = false, features = ["json"] }
async-trait = "=0.1.92"
