[package]
name = "twitch_gamepad"
version = "0.1.0"
edition = "2021"
publish = false

[dependencies]
anyhow = "1"
async-trait = "0.1"
chrono = "=0.4.45"
duration-str = "=0.21.0"
nix = { version = "=0.31.3", features = ["signal", "process"] }
reqwest = { version = "0.11", features = ["json"] }
rusqlite = "=0.41.0"
serde = { version = "1", features = ["derive"] }
tokio = { version = "1", features = ["full"] }
toml = "1"
tracing = "0.1"
tracing-subscriber = "0.3"
twitch-irc = { version = "=5.0.1", features = ["refreshing-token-native-tls"] }
uinput = "0.1.3"
