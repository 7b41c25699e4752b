[package]
name = "rsbtc"
version = "0.1.0"
edition = "2021"
publish = false

[dependencies]
anyhow = "1"
argh = "0.1"
bigdecimal = "0.4"
chrono = { version = "0.4", features = ["serde"] }
ciborium = "0.2"
clap = { version = "4", features = ["derive"] }
cursive = "0.21"
dashmap = "6"
ecdsa = { version = "0.16", features = ["signing", "verifying", "serde", "pem", "pkcs8", "std"] }
flume = "0.11"
hex = "0.4"
k256 = { version = "0.13", features = ["ecdsa", "serde", "pem", "pkcs8", "std"] }
kanal = "0.1"
rand = "0.8"
serde = { version = "1", features = ["derive"] }
serde_json = "1"
sha256 = "1"
static_init = "1"
tokio = { version = "1", features = ["full"] }
uuid = { version = "1", features = ["v4", "serde"] }
