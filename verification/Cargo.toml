[package]
name = "linkd"
version = "0.1.0"
edition = "2021"
publish = false

[dependencies]
sha2 = "0.10"
hex = "0.4"
rand = "0.8"
serde = { version = "1", features = ["derive"] }
serde_json = "1"
tokio = { version = "1", features = ["full"] }
anyhow = "1"
clap = { version = "4", features = ["derive"] }
dirs = "5"
tracing = "0.1"
tracing-subscriber = { version = "0.3", features = ["env-filter"] }
quinn = { version = "0.11", default-features = false, features = ["runtime-tokio", "rustls-ring", "log"] }
rustls = { version = "0.23", default-features = false, features = ["ring", "std", "logging", "tls12"] }
rcgen = { version = "0.13", default-features = false, features = ["ring", "pem"] }
local-ip-address = "0.6"
mdns-sd = "*"
qrcode = { version = "0.14", default-features = false }
zbus = { version = "4", default-features = false, features = ["tokio"] }
futures-util = "0.3"
x11rb = { version = "0.13", features = ["xfixes"] }
evdev = "0.13"
bluer = { version = "0.17", features = ["bluetoothd"] }
