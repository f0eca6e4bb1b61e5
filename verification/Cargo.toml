[package]
name = "mud_session"
version = "0.1.0"
edition = "2021"
publish = false

[dependencies]
tokio = { version = "=1.53.2", features = ["rt-multi-thread", "net", "sync", "io-util", "macros", "time"] }
clap = { version = "=4.6.7", features = ["derive"] }
figment = { version = "=0.10.19", features = ["toml"] }
serde = { version = "=1.0.229", features = ["derive"] }
patharg = "=0.4.1"
