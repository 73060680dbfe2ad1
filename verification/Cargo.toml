[package]
name = "iridium_proxy"
version = "0.1.0"
edition = "2021"
publish = false

[dependencies]
lru = "=0.12.5"
rand = "=0.8.8"
tokio = { version = "=1.54.1", features = ["full"] }
warp = "=0.3.7"
hyper = "=0.14.32"
reqwest = { version = "=0.11.27", default-features = false, features = ["json"] }
serde = { version = "=1.0.229", features = ["derive"] }
tracing = "=0.1.44"
tracing-subscriber = { version = "=0.3.23", features = ["env-filter", "time", "local-time"] }
time = { version = "=0.3.55", features = ["macros", "local-offset"] }
once_cell = "=1.21.4"
bus = "=2.4.1"
futures = "=0.3.34"
tungstenite = "=0.19.0"
url = "=2.5.8"
rust-embed = { version = "=8.13.0", features = ["interpolate-folder-path"] }
warp-embed = "=0.5.0"
