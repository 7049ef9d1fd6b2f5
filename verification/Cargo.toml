[package]
name = "mandown"
version = "0.1.0"
edition = "2021"
publish = false

[dependencies]
url = "=2.5.8"
chrono = "=0.4.45"
serde = { version = "=1.0.229", features = ["derive"] }
serde_yaml = "=0.9.34"
log = "=0.4.34"
env_logger = "=0.11.11"
dotenvy = "=0.15.7"
futures = "=0.3.34"
tokio = { version = "=1.53.2", features = ["rt-multi-thread", "macros", "time"] }
reqwest = { version = "=0.13.5", features = ["blocking"] }
mongodb = "=3.9.1"
teloxide = { version = "=0.17.0", features = ["macros"] }
takecell = "=0.1.0"
