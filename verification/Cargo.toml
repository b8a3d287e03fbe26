[package]
name = "ftail"
version = "0.1.0"
edition = "2021"
publish = false

[dependencies]
regex = "1"
serde_json = "1"
serde = { version = "1", features = ["derive"] }
anyhow = "1"
atty = "0.2"
clap = "4"
futures = "0.3"
notify = "6"
tokio = { version = "1", features = ["fs", "io-std", "io-util", "macros", "rt-multi-thread"] }
