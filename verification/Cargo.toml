[package]
name = "vaultify"
version = "0.1.0"
edition = "2021"
publish = false

[dependencies]
clap = { version = "4", features = ["derive", "env"] }
env_logger = "*"
futures = "*"
lazy_static = "*"
log = "*"
nix = { version = "*", features = ["process"] }
reqwest = { version = "*", features = ["json"] }
serde_json = "1"
thiserror = "*"
tokio = { version = "1", features = ["rt-multi-thread", "macros", "fs", "time"] }

[dev-dependencies]
regex = "1"
