[package]
name = "typed-eventbus"
version = "0.3.1"
edition = "2021"
publish = false

[dependencies]
async-nats = "*"
async-trait = "0.1"
bytes = "1"
dashmap = "6"
futures = "0.3"
jiff = { version = "0.2", features = ["serde"] }
serde = { version = "1", features = ["derive"] }
serde_json = "1"
tokio = { version = "1", features = ["sync", "rt", "rt-multi-thread", "macros", "time"] }
tracing = "0.1"
uuid = { version = "1", features = ["v4", "serde"] }
