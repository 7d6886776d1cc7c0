[package]
name = "wanipaper"
version = "0.1.0"
edition = "2021"
publish = false

[dependencies]
image = "=0.25.10"
rand = "=0.10.3"
nix = { version = "=0.31.3", features = ["event"] }
smithay-client-toolkit = { version = "=0.21.1", default-features = false }
wayland-client = "=0.31.15"
toml = "=1.1.6"
serde = { version = "=1.0.229", features = ["derive"] }
log = "=0.4.34"
env_logger = "=0.11.11"
