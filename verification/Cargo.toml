[package]
name = "rsspub"
version = "0.1.0"
edition = "2021"
publish = false

[dependencies]
chrono = "=0.4.45"
chrono-tz = "=0.10.4"
lettre = { version = "=0.11.23", default-features = false, features = ["builder", "hostname", "smtp-transport", "tokio1", "tokio1-rustls-tls"] }
rusqlite = { version = "=0.32.1", features = ["bundled"] }
axum = "=0.8.9"
tokio = { version = "=1.54.1", features = ["full"] }
tokio-cron-scheduler = "=0.13.0"
tower = "=0.5.3"
tower-http = { version = "=0.6.11", features = ["fs", "set-header"] }
tracing = "=0.1.44"
serde = { version = "=1.0.229", features = ["derive"] }
uuid = { version = "=1.29.1", features = ["v4"] }
anyhow = "=1.0.104"
epub-builder = "=0.8.3"
image = { version = "=0.25.10", default-features = false, features = ["jpeg", "png"] }
ab_glyph = "=0.2.32"
indicatif = "=0.17.11"
reqwest = { version = "=0.12.28", default-features = false, features = ["rustls-tls", "cookies"] }

[dev-dependencies]
zip = { version = "=6.0.0", default-features = false, features = ["deflate"] }
