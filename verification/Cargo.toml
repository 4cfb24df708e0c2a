[package]
name = "motorhead"
version = "0.1.0"
edition = "2021"
publish = false

[dependencies]
tiktoken-rs = "=0.12.1"
nanoid = "=0.5.0"
actix-web = "4"
async-openai = { version = "=0.42.1", features = ["chat-completion", "embedding"] }
async-trait = "*"
chrono = "*"
deadpool = "=0.13.1"
env_logger = "*"
futures-util = "*"
log = "*"
redis = { version = "=1.7.1", features = ["tokio-comp", "connection-manager"] }
serde = { version = "*", features = ["derive"] }
tokio = { version = "*", features = ["macros", "rt-multi-thread", "sync"] }

[dev-dependencies]
byteorder = "=1.5.0"
