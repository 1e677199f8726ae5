[package]
name = "mediatracker"
version = "0.1.0"
edition = "2021"
publish = false

[dependencies]
argon2 = "=0.5.3"
rand_core = { version = "=0.6.4", features = ["getrandom"] }
serde = { version = "=1.0.229", features = ["derive"] }
serde_json = "=1.0.151"
tokio = { version = "=1.53.2", features = ["rt-multi-thread", "net", "macros"] }
axum = "=0.8.9"
tower-http = { version = "=0.7.1", features = ["cors"] }
mdns-sd = "=0.21.5"
local-ip-address = "=0.6.13"
hostname = "=0.4.2"
