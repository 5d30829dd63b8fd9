[package]
name = "matrix_migrate"
version = "0.1.0"
edition = "2021"
publish = false

[dependencies]
anyhow = "1"
clap = { version = "4", features = ["derive", "env"] }
env_logger = "0.10"
futures = "0.3"
log = "0.4"
matrix-sdk = { version = "0.7", default-features = false, features = ["rustls-tls", "sso-login"] }
tokio = { version = "1", features = ["macros", "rt-multi-thread", "time"] }
