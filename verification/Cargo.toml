[package]
name = "multitap"
version = "0.1.0"
edition = "2021"
publish = false

[dependencies]
slab = "0.4"
serde = { version = "1", features = ["derive"] }
serde_json = "1"
ron = "0.6"
log = "0.4"
env_logger = "0.8"
structopt = "0.3"
mio = { version = "0.7", features = ["os-poll", "os-util", "uds"] }
nix = "0.19"
evdev-rs = "0.5"
udev = "0.6"
