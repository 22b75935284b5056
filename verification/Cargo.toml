[package]
name = "zchronod"
version = "0.1.0"
edition = "2021"
publish = false

[dependencies]
prost = "=0.12.6"
hex = "=0.4.3"
tokio = { version = "=1.54.1", features = ["full"] }
tokio-tungstenite = "=0.21.0"
futures-util = { version = "=0.3.34", features = ["sink"] }
futures-channel = { version = "=0.3.34", features = ["sink"] }
url = "=2.5.8"
clap = { version = "=4.6.7", features = ["derive"] }
serde = { version = "=1.0.229", features = ["derive"] }
serde_json = "=1.0.154"
warp = "=0.3.7"
kitsune_p2p_types = "*"
futures = "0.3"
