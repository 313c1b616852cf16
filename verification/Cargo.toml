[package]
name = "wgmeeting_github_ircbot"
version = "0.1.0"
edition = "2021"
publish = false

[dependencies]
anyhow = "*"
env_logger = "*"
futures = "*"
irc = "*"
log = "*"
octorust = "*"
serde = { version = "*", features = ["derive"] }
tokio = { version = "*", features = ["rt", "macros", "time"] }
toml = "*"
