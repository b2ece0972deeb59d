[package]
name = "dexbot-model"
version = "0.2.3"
edition = "2021"
publish = false

[dependencies]
serde = { version = "1", features = ["derive"] }
serde_json = "1"
serde_yaml = "0.9"
sha2 = "0.10"
quick-xml = "0.31"
thiserror = "1"
clap = { version = "4", features = ["derive"] }
