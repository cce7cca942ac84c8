[package]
name = "regional_stats"
version = "0.1.0"
edition = "2021"
publish = false

[dependencies]
badlog = "*"
bb8-postgres = { version = "*", features = ["with-chrono-0_4"] }
chrono = { version = "0.4", features = ["serde"] }
lazy_static = "1"
maxminddb = "*"
reqwest = { version = "0.12", default-features = false, features = ["rustls-tls"] }
rss = "*"
serde = { version = "1", features = ["derive"] }
tokio = { version = "1", features = ["macros", "rt-multi-thread"] }
warp = { version = "0.3", features = ["compression"] }
