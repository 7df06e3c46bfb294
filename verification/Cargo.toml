[package]
name = "arbmon"
version = "0.1.0"
edition = "2021"
publish = false

[dependencies]
anyhow = "*"
async-trait = "*"
chrono = "*"
futures-util = "*"
hex = "*"
hmac = "*"
log = "*"
rand = "*"
reqwest = { version = "*", default-features = false, features = ["json"] }
serde = { version = "*", features = ["derive"] }
serde_json = "*"
sha2 = "*"
tokio = { version = "*", features = ["full"] }
tokio-tungstenite = "*"
uuid = { version = "*", features = ["v4"] }
