[package]
name = "adx"
version = "0.1.0"
edition = "2021"
publish = false

[dependencies]
semver = "1"
roxmltree = "0.20"
clap = { version = "4", features = ["derive"] }
color-eyre = "0.6"
futures = "0.3"
reqwest = { version = "0.12", default-features = false, features = ["rustls-tls"] }
thiserror = "1"
tokio = { version = "1", features = ["macros", "rt-multi-thread"] }
