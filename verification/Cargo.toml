[package]
name = "turntable"
version = "0.1.0"
edition = "2021"
publish = false

[dependencies]
rand = "0.8"
argon2 = "0.5"
url = "2"
regex = "1"
crossbeam = "0.8"
dashmap = "5"
parking_lot = "0.12"
log = "0.4"
thiserror = "1"
serde = { version = "1", features = ["derive"] }
serde_json = "1"
tokio = { version = "1", features = ["full"] }
chrono = "0.4"
async-trait = "0.1"
futures-util = "0.3"
lazy_static = "1"
spin_sleep = "1"
reqwest = { version = "0.12", default-features = false, features = ["json"] }
rubato = "0.14"
symphonia = "0.5"
axum = "0.7"
tower-http = { version = "0.5", features = ["cors"] }
utoipa = "4"
validator = { version = "0.18", features = ["derive"] }
