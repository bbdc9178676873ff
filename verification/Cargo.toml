[package]
name = "dns_geolocation_checker"
version = "0.1.0"
edition = "2021"
publish = false

[dependencies]
rand = "0.8"
maxminddb = "0.24"
reqwest = { version = "0.12", default-features = false, features = ["json"] }
tokio = { version = "1", features = ["rt-multi-thread", "macros", "net", "time"] }
futures = "0.3"
serde = { version = "1", features = ["derive"] }
toml = "0.8"
anyhow = "1"
