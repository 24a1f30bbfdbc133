[package]
name = "meshnet"
version = "0.1.0"
edition = "2021"
publish = false

[dependencies]
anyhow = "1"
axum = "0.7"
clap = { version = "4", features = ["derive"] }
dirs-next = "2"
futures-util = "0.3"
glob = "0.3"
hostname = "0.4"
http-body-util = "0.1"
indicatif = "0.17"
inquire = "0.7"
local-ip-address = "0.6"
mdns-sd = "0.11"
reqwest = { version = "0.12", default-features = false, features = ["json", "stream"] }
serde = { version = "1", features = ["derive"] }
tokio = { version = "1", features = ["full"] }
tokio-util = { version = "0.7", features = ["io"] }
uuid = { version = "1", features = ["v4"] }
