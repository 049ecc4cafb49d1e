[package]
name = "watchtower"
version = "0.1.0"
edition = "2021"
publish = false

[dependencies]
alloy = { version = "=2.5.0", default-features = false, features = ["std", "k256"] }
anyhow = "=1.0.104"
axum = "=0.8.9"
chrono = "=0.4.45"
clap = { version = "=4.6.7", features = ["derive", "env"] }
dotenvy = "=0.15.7"
redis = { version = "=1.7.1", features = ["tokio-comp", "connection-manager"] }
serde = { version = "=1.0.229", features = ["derive"] }
serde_json = "=1.0.151"
shellexpand = "=3.1.2"
tokio = { version = "=1.53.2", features = ["full"] }
toml = "=1.1.7"
uuid = { version = "=1.27.0", features = ["v4"] }

[dev-dependencies]
hex = "=0.4.3"
