[package]
name = "remote_file_system"
version = "0.1.0"
edition = "2021"
publish = false

[dependencies]
lru = "0.12"
serde = { version = "1", features = ["derive"] }
serde_json = "1"
libc = "0.2"
log = "0.4"
env_logger = { version = "0.11", default-features = false }
clap = { version = "4", features = ["derive"] }
daemonize = "0.5"
fuser = { version = "0.15", default-features = false }
reqwest = { version = "0.12", default-features = false, features = ["blocking", "json"] }
actix-web = { version = "4", default-features = false, features = ["macros"] }
tokio = { version = "1", features = ["fs", "io-util"] }
tokio-util = { version = "0.7", features = ["codec", "io"] }
futures-util = "0.3"
tempfile = "3"
