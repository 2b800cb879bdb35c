[package]
name = "taurigo"
version = "0.1.0"
edition = "2021"
publish = false

[dependencies]
r2d2 = "0.8"
r2d2_sqlite = "*"
rusqlite = { version = "*", features = ["bundled"] }
reqwest = { version = "0.12", default-features = false, features = ["json", "rustls-tls"] }
rustls = { version = "0.23", default-features = false, features = ["ring", "std", "logging", "tls12"] }
serde = { version = "1", features = ["derive"] }
thiserror = "*"
tokio = { version = "1", features = ["time", "rt"] }
log = "0.4"
