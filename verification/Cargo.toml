[package]
name = "waywallen"
version = "0.1.0"
edition = "2021"
publish = false

[dependencies]
anyhow = "1"
base64 = "0.22"
glob = "0.3"
log = "0.4"
qrcode = { version = "0.14", default-features = false, features = ["svg"] }
serde = { version = "1", features = ["derive"] }
serde_json = "1"
tokio = { version = "1", features = ["fs", "rt", "macros", "sync", "time"] }
toml = "0.8"
uuid = { version = "1", features = ["v4"] }
zbus = "5"
zip = "2"
