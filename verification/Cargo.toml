[package]
name = "susspekt"
version = "0.1.0"
edition = "2021"
publish = false

[dependencies]
ipnetwork = "*"
clap = { version = "*", features = ["derive"] }
env_logger = "*"
ja3 = "*"
log = "*"
md5 = "*"
reqwest = { version = "*", default-features = false, features = ["json"] }
serde = { version = "*", features = ["derive"] }
serde_json = "*"
tokio = { version = "*", features = ["full"] }
