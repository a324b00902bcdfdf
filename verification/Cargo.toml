[package]
name = "mumd"
version = "0.1.0"
edition = "2021"
publish = false

[dependencies]
mumble-protocol = "0.4"
tokio = { version = "1", features = ["full"] }
tokio-util = { version = "0.6", features = ["codec", "net"] }
tokio-native-tls = "0.3"
native-tls = "0.2"
futures-util = { version = "0.3", features = ["sink"] }
futures-channel = { version = "0.3", features = ["sink"] }
cpal = "0.13"
opus = "0.2"
serde = { version = "1", features = ["derive"] }
toml = "0.5"
fern = "0.6"
colored = "2"
log = "0.4"
