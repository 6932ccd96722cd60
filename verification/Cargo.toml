[package]
name = "irc_bouncer"
version = "0.1.0"
edition = "2021"
publish = false

[dependencies]
base64 = "0.13"
native-tls = "0.2"
regex = "1"
serde = { version = "1", features = ["derive"] }
serde_json = "1"
serenity = "0.10"
simple-error = "0.2"
tokio = { version = "1", features = ["full"] }
tokio-native-tls = "0.3"
