[package]
name = "spacermake"
version = "0.1.0"
edition = "2021"
publish = false

[dependencies]
json = "0.12"
rumqttc = "0.24"
tokio = { version = "1", features = ["full"] }
tokio-util = { version = "0.7", features = ["compat"] }
futures = "0.3"
chrono = "0.4"
csv = "1"
serde = { version = "1", features = ["derive"] }
toml = "0.8"
config = { version = "0.14", default-features = false, features = ["toml"] }
colour = "*"
tap = "1"
anyhow = "1"
base64 = "0.22"
http = "0.2"
warp = "0.3"
maud = "*"
itertools = "*"
extend = "1"
strum = { version = "0.26", features = ["derive"] }
capnp = "*"
capnp-rpc = "*"
async-native-tls = { version = "0.5", default-features = false, features = ["runtime-tokio"] }
pollster = "*"
