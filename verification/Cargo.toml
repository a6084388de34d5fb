[package]
name = "mqttui"
version = "0.22.1"
edition = "2021"
publish = false

[dependencies]
anyhow = "=1.0.104"
chrono = { version = "=0.4.45", default-features = false, features = ["clock"] }
clap = { version = "=4.6.7", features = ["derive", "env", "wrap_help"] }
crossterm = "=0.28.1"
rand = "=0.8.8"
ratatui = "=0.29.0"
rmpv = { version = "=1.3.1", features = ["with-serde"] }
rumqttc = { version = "=0.24.0", features = ["websocket"] }
rustls = "=0.23.46"
rustls-native-certs = "=0.8.5"
rustls-pemfile = "=2.2.0"
rustls-pki-types = "=1.15.1"
serde = { version = "=1.0.229", features = ["derive"] }
serde_json = "=1.0.154"
tui-tree-widget = "=0.23.1"
url = "=2.5.8"
