[package]
name = "phalanx"
version = "0.1.0"
edition = "2021"
publish = false

[dependencies]
anyhow = "1"
async-compat = "0.2"
async-trait = "0.1"
chrono = "0.4"
dashmap = "5"
eff-wordlist = "*"
env_logger = "*"
fastrand = "2"
futures-util = "0.3"
isahc = { version = "1", features = ["json"] }
log = "0.4"
once_cell = "1"
openstack = "*"
parking_lot = "0.12"
rand = "0.8"
scopeguard = "1"
serde = { version = "1", features = ["derive"] }
serde_json = "1"
serde_urlencoded = "0.7"
serde_yaml = "0.9"
smol = "2"
smol-timeout = "0.6"
sqlx = { version = "0.7", features = ["runtime-tokio-rustls", "postgres", "chrono"] }
