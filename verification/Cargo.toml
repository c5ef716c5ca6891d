[package]
name = "cup"
version = "3.5.1"
edition = "2021"
publish = false

[dependencies]
bollard = "0.18"
futures = "0.3"
reqwest = { version = "0.12", default-features = false, features = ["rustls-tls"] }
reqwest-middleware = "0.3"
reqwest-retry = "0.6"
rustc-hash = "2"
serde = { version = "1", features = ["derive"] }
serde_json = "1"
tokio = { version = "1", features = ["macros", "rt-multi-thread", "time"] }
